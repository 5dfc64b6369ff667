//! Byte strings: searching, comparing, copying, and writing integers.

use vstd::prelude::*;

verus! {

/// The first index in `i..end` at which `s` holds `a` or `b`; `end` where
/// there is none.
pub open spec fn scan(s: Seq<u8>, i: int, end: int, a: u8, b: u8) -> int
    decreases end - i,
{
    if i >= end {
        end
    } else if 0 <= i < s.len() && (s[i] == a || s[i] == b) {
        i
    } else {
        scan(s, i + 1, end, a, b)
    }
}

/// `scan` stays between its start and its end.
pub proof fn lemma_scan_bounds(s: Seq<u8>, i: int, end: int, a: u8, b: u8)
    requires
        i <= end,
    ensures
        i <= scan(s, i, end, a, b) <= end,
    decreases end - i,
{
    if i < end && !(0 <= i < s.len() && (s[i] == a || s[i] == b)) {
        lemma_scan_bounds(s, i + 1, end, a, b);
    }
}

/// `scan` stops at `p` where none of the bytes before `p` is sought and `p`
/// holds one that is, or is the end.
pub proof fn lemma_scan_stops(s: Seq<u8>, i: int, p: int, end: int, a: u8, b: u8)
    requires
        0 <= i <= p <= end <= s.len(),
        forall|k: int| i <= k < p ==> s[k] != a && s[k] != b,
        p < end ==> s[p] == a || s[p] == b,
    ensures
        scan(s, i, end, a, b) == p,
    decreases p - i,
{
    if i < p {
        lemma_scan_stops(s, i + 1, p, end, a, b);
    }
}

/// What `scan` finds: none of the bytes before its result is sought, and
/// its result holds one that is, or is the end.
pub proof fn lemma_scan_result(s: Seq<u8>, i: int, end: int, a: u8, b: u8)
    requires
        0 <= i <= end <= s.len(),
    ensures
        i <= scan(s, i, end, a, b) <= end,
        forall|k: int| i <= k < scan(s, i, end, a, b) ==> s[k] != a && s[k] != b,
        scan(s, i, end, a, b) < end ==> s[scan(s, i, end, a, b)] == a || s[scan(s, i, end, a, b)]
            == b,
    decreases end - i,
{
    if i < end && !(s[i] == a || s[i] == b) {
        lemma_scan_result(s, i + 1, end, a, b);
    }
}

/// The decimal digits of `n`, most significant first, as ASCII.
pub open spec fn digits(n: nat) -> Seq<u8>
    decreases n,
{
    if n < 10 {
        seq![(48 + n) as u8]
    } else {
        digits(n / 10).push((48 + n % 10) as u8)
    }
}

/// `n` in decimal, with a minus sign where it is negative.
pub open spec fn decimal(n: int) -> Seq<u8> {
    if n < 0 {
        seq![45u8] + digits((-n) as nat)
    } else {
        digits(n as nat)
    }
}

/// `x` as two decimal digits, for `0 <= x < 100`.
pub open spec fn two_digits(x: int) -> Seq<u8> {
    seq![(48 + x / 10) as u8, (48 + x % 10) as u8]
}

/// The time of day of the instant `n`, counted in seconds, as `HH:MM:SS`.
pub open spec fn clock(n: int) -> Seq<u8> {
    let s = n % 86400;
    two_digits(s / 3600) + seq![58u8] + two_digits((s % 3600) / 60) + seq![58u8] + two_digits(
        s % 60,
    )
}

/// The year, month and day of the day that lies `days` after 1 January
/// 1970, in the Gregorian calendar. The count runs in eras of 400 years,
/// each from 1 March, so that a leap day is the last day of its year.
pub open spec fn civil(days: int) -> (int, int, int) {
    let z = days + 719468;
    let era = z / 146097;
    let doe = z % 146097;
    let yoe = (doe - doe / 1460 + doe / 36524 - doe / 146096) / 365;
    let doy = doe - (365 * yoe + yoe / 4 - yoe / 100);
    let mp = (5 * doy + 2) / 153;
    let d = doy - (153 * mp + 2) / 5 + 1;
    let m = if mp < 10 {
        mp + 3
    } else {
        mp - 9
    };
    let y = yoe + era * 400 + if m <= 2 {
        1int
    } else {
        0int
    };
    (y, m, d)
}

/// The calendar gives every day a month from 1 to 12 and a day of the month
/// from 1 to 31.
pub proof fn lemma_civil_is_a_date(days: int)
    requires
        days >= 0,
    ensures
        1 <= civil(days).1 <= 12,
        1 <= civil(days).2 <= 31,
        civil(days).0 >= 1970,
{
}

/// Is `year` a leap year of the Gregorian calendar?
pub open spec fn is_leap(year: int) -> bool {
    year % 4 == 0 && (year % 100 != 0 || year % 400 == 0)
}

/// The number of days of a month.
pub open spec fn month_length(year: int, month: int) -> int {
    if month == 2 {
        if is_leap(year) {
            29
        } else {
            28
        }
    } else if month == 4 || month == 6 || month == 9 || month == 11 {
        30
    } else {
        31
    }
}

/// The day after a day of the calendar.
pub open spec fn next_day(date: (int, int, int)) -> (int, int, int) {
    if date.2 < month_length(date.0, date.1) {
        (date.0, date.1, date.2 + 1)
    } else if date.1 < 12 {
        (date.0, date.1 + 1, 1)
    } else {
        (date.0 + 1, 1, 1)
    }
}

/// Day 0 is 1 January 1970, and day 11016 is the leap day of 2000.
pub proof fn lemma_civil_known_days()
    ensures
        civil(0) == (1970int, 1int, 1int),
        civil(11016) == (2000int, 2int, 29int),
        civil(11017) == (2000int, 3int, 1int),
        civil(19782) == (2024int, 2int, 29int),
        civil(47540) == (2100int, 2int, 28int),
        civil(47541) == (2100int, 3int, 1int),
{
    assert(civil(0) == (1970int, 1int, 1int)) by {
        assert(719468int / 146097 == 4 && 719468int % 146097 == 135080);
        assert(135080int / 1460 == 92 && 135080int / 36524 == 3 && 135080int / 146096 == 0);
        assert(134991int / 365 == 369);
        assert(369int / 4 == 92 && 369int / 100 == 3);
        assert(1532int / 153 == 10);
        assert(1532int / 5 == 306);
    }
    assert(civil(11016) == (2000int, 2int, 29int)) by {
        assert(730484int / 146097 == 4 && 730484int % 146097 == 146096);
        assert(146096int / 1460 == 100 && 146096int / 36524 == 4 && 146096int / 146096 == 1);
        assert(145999int / 365 == 399);
        assert(399int / 4 == 99 && 399int / 100 == 3);
        assert(1827int / 153 == 11);
        assert(1685int / 5 == 337);
    }
    assert(civil(11017) == (2000int, 3int, 1int)) by {
        assert(730485int / 146097 == 5 && 730485int % 146097 == 0);
        assert(0int / 1460 == 0 && 0int / 36524 == 0 && 0int / 146096 == 0);
        assert(0int / 365 == 0);
        assert(0int / 4 == 0 && 0int / 100 == 0);
        assert(2int / 153 == 0);
        assert(2int / 5 == 0);
    }
    assert(civil(19782) == (2024int, 2int, 29int)) by {
        assert(739250int / 146097 == 5 && 739250int % 146097 == 8765);
        assert(8765int / 1460 == 6 && 8765int / 36524 == 0 && 8765int / 146096 == 0);
        assert(8759int / 365 == 23);
        assert(23int / 4 == 5 && 23int / 100 == 0);
        assert(1827int / 153 == 11);
        assert(1685int / 5 == 337);
    }
    assert(civil(47540) == (2100int, 2int, 28int)) by {
        assert(767008int / 146097 == 5 && 767008int % 146097 == 36523);
        assert(36523int / 1460 == 25 && 36523int / 36524 == 0 && 36523int / 146096 == 0);
        assert(36498int / 365 == 99);
        assert(99int / 4 == 24 && 99int / 100 == 0);
        assert(1822int / 153 == 11);
        assert(1685int / 5 == 337);
    }
    assert(civil(47541) == (2100int, 3int, 1int)) by {
        assert(767009int / 146097 == 5 && 767009int % 146097 == 36524);
        assert(36524int / 1460 == 25 && 36524int / 36524 == 1 && 36524int / 146096 == 0);
        assert(36500int / 365 == 100);
        assert(100int / 4 == 25 && 100int / 100 == 1);
        assert(2int / 153 == 0);
        assert(2int / 5 == 0);
    }
}

/// The day after day `days` is the next day of the calendar: months have
/// their lengths, and February has 29 days in leap years only. With day 0
/// this fixes the date of every day.
#[verifier::rlimit(100)]
pub proof fn lemma_civil_follows_the_calendar(days: int)
    requires
        days >= 0,
    ensures
        civil(days + 1) == next_day(civil(days)),
        1 <= civil(days).2 <= month_length(civil(days).0, civil(days).1),
{
    let z = days + 719468;
    let era = z / 146097;
    let doe = z % 146097;
    let yoe = year_of_era(doe);
    let doy = doe - year_start(yoe);
    lemma_year_of_era(doe);
    if doe < 146096 {
        assert((z + 1) / 146097 == era && (z + 1) % 146097 == doe + 1);
        lemma_year_of_era(doe + 1);
        let yoe2 = year_of_era(doe + 1);
        assert(yoe2 == yoe || yoe2 == yoe + 1);
        if yoe2 == yoe {
            lemma_month_of_year(doy);
            lemma_month_of_year(doy + 1);
        } else {
            lemma_month_of_year(doy);
            lemma_month_of_year(0);
        }
    } else {
        assert((z + 1) / 146097 == era + 1 && (z + 1) % 146097 == 0);
        lemma_year_of_era(0);
        lemma_month_of_year(doy);
        lemma_month_of_year(0);
    }
}

/// The year of its era in which the day `doe` of the era lies, the years
/// counted from 1 March.
pub open spec fn year_of_era(doe: int) -> int {
    (doe - doe / 1460 + doe / 36524 - doe / 146096) / 365
}

/// The day of its era on which the year `yoe` of the era starts.
pub open spec fn year_start(yoe: int) -> int {
    365 * yoe + yoe / 4 - yoe / 100
}

/// The year of a day of the era is the year that the day lies in: it starts
/// on or before that day, and the next year starts after it.
pub proof fn lemma_year_of_era(doe: int)
    requires
        0 <= doe < 146097,
    ensures
        0 <= year_of_era(doe) < 400,
        year_start(year_of_era(doe)) <= doe,
        doe < year_start(year_of_era(doe) + 1) || year_of_era(doe) == 399,
{
}

/// The month and the day of the month of the day `doy` of a year that
/// starts on 1 March: the months start on the days 0, 31, 61, 92, 122, 153,
/// 184, 214, 245, 275, 306 and 337.
pub proof fn lemma_month_of_year(doy: int)
    requires
        0 <= doy <= 365,
    ensures
        ({
            let mp = (5 * doy + 2) / 153;
            let first = (153 * mp + 2) / 5;
            &&& 0 <= mp <= 11
            &&& first <= doy
            &&& mp < 11 ==> doy < (153 * (mp + 1) + 2) / 5
            &&& first == if mp == 0 {
                0int
            } else if mp == 1 {
                31
            } else if mp == 2 {
                61
            } else if mp == 3 {
                92
            } else if mp == 4 {
                122
            } else if mp == 5 {
                153
            } else if mp == 6 {
                184
            } else if mp == 7 {
                214
            } else if mp == 8 {
                245
            } else if mp == 9 {
                275
            } else if mp == 10 {
                306
            } else {
                337
            }
        }),
{
}

/// The day of the instant `n`, counted in seconds from 1 January 1970, as
/// `YYYY-MM-DD`.
pub open spec fn calendar(n: int) -> Seq<u8> {
    let date = civil(n / 86400);
    digits(date.0 as nat) + seq![45u8] + two_digits(date.1) + seq![45u8] + two_digits(date.2)
}

/// Finds the first of two bytes in a range.
pub fn find(s: &[u8], start: usize, end: usize, a: u8, b: u8) -> (k: usize)
    requires
        start <= end <= s@.len(),
    ensures
        k == scan(s@, start as int, end as int, a, b),
        start <= k <= end,
{
    let mut k: usize = start;
    while k < end && s[k] != a && s[k] != b
        invariant
            start <= k <= end <= s@.len(),
            scan(s@, start as int, end as int, a, b) == scan(s@, k as int, end as int, a, b),
        decreases end - k,
    {
        k += 1;
    }
    k
}

/// Is the range `start..end` of `s` the byte string `other`?
pub fn same_bytes(s: &[u8], start: usize, end: usize, other: &[u8]) -> (same: bool)
    requires
        start <= end <= s@.len(),
    ensures
        same == (s@.subrange(start as int, end as int) == other@),
{
    if end - start != other.len() {
        return false;
    }
    let ghost part = s@.subrange(start as int, end as int);
    let mut k: usize = 0;
    while k < other.len()
        invariant
            start <= end <= s@.len(),
            end - start == other@.len(),
            k <= other@.len(),
            part == s@.subrange(start as int, end as int),
            forall|j: int| 0 <= j < k ==> part[j] == other@[j],
        decreases other@.len() - k,
    {
        if s[start + k] != other[k] {
            assert(part[k as int] != other@[k as int]);
            return false;
        }
        k += 1;
    }
    assert(part =~= other@);
    true
}

/// Appends the range `start..end` of `s` to `out`.
pub fn copy_bytes(out: &mut Vec<u8>, s: &[u8], start: usize, end: usize)
    requires
        start <= end <= s@.len(),
    ensures
        final(out)@ == old(out)@ + s@.subrange(start as int, end as int),
{
    let mut k: usize = start;
    while k < end
        invariant
            start <= k <= end <= s@.len(),
            out@ == old(out)@ + s@.subrange(start as int, k as int),
        decreases end - k,
    {
        out.push(s[k]);
        assert(out@ =~= old(out)@ + s@.subrange(start as int, k + 1));
        k += 1;
    }
    assert(out@ =~= old(out)@ + s@.subrange(start as int, end as int));
}

/// Appends the decimal digits of `n` to `out`.
pub fn push_digits(out: &mut Vec<u8>, n: u64)
    ensures
        final(out)@ == old(out)@ + digits(n as nat),
    decreases n,
{
    if n >= 10 {
        push_digits(out, n / 10);
    }
    let d: u8 = (n % 10) as u8 + 48;
    out.push(d);
    assert(out@ =~= old(out)@ + digits(n as nat));
}

/// Appends `n` in decimal to `out`.
pub fn push_decimal(out: &mut Vec<u8>, n: i64)
    ensures
        final(out)@ == old(out)@ + decimal(n as int),
{
    if n < 0 {
        let magnitude: u64 = (-(n + 1)) as u64 + 1;
        out.push(45u8);
        push_digits(out, magnitude);
        assert(out@ =~= old(out)@ + decimal(n as int));
    } else {
        push_digits(out, n as u64);
    }
}

/// Appends `x` as two decimal digits to `out`.
pub fn push_two_digits(out: &mut Vec<u8>, x: u8)
    requires
        x < 100,
    ensures
        final(out)@ == old(out)@ + two_digits(x as int),
{
    out.push(48 + x / 10);
    out.push(48 + x % 10);
    assert(out@ =~= old(out)@ + two_digits(x as int));
}

/// Appends the time of day of the instant `n` to `out`.
pub fn push_clock(out: &mut Vec<u8>, n: i64)
    requires
        n >= 0,
    ensures
        final(out)@ == old(out)@ + clock(n as int),
{
    let s: i64 = n % 86400;
    let h: u8 = (s / 3600) as u8;
    let m: u8 = ((s % 3600) / 60) as u8;
    let sec: u8 = (s % 60) as u8;
    push_two_digits(out, h);
    out.push(58u8);
    push_two_digits(out, m);
    out.push(58u8);
    push_two_digits(out, sec);
    assert(out@ =~= old(out)@ + clock(n as int));
}

/// Appends the day of the instant `n` to `out`.
pub fn push_calendar(out: &mut Vec<u8>, n: i64)
    requires
        n >= 0,
    ensures
        final(out)@ == old(out)@ + calendar(n as int),
{
    let days: u64 = (n / 86400) as u64;
    let z: u64 = days + 719468;
    let era: u64 = z / 146097;
    let doe: u64 = z % 146097;
    let yoe: u64 = (doe - doe / 1460 + doe / 36524 - doe / 146096) / 365;
    let doy: u64 = doe - (365 * yoe + yoe / 4 - yoe / 100);
    let mp: u64 = (5 * doy + 2) / 153;
    let d: u64 = doy - (153 * mp + 2) / 5 + 1;
    let m: u64 = if mp < 10 { mp + 3 } else { mp - 9 };
    let y: u64 = yoe + era * 400 + if m <= 2 { 1 } else { 0 };
    push_digits(out, y);
    out.push(45u8);
    push_two_digits(out, m as u8);
    out.push(45u8);
    push_two_digits(out, d as u8);
    assert(out@ =~= old(out)@ + calendar(n as int));
}

} // verus!
