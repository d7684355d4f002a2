//! Calendar timestamps with microsecond precision.
//!
//! A timestamp is kept in civil form (year, month, day, clock time). Its
//! absolute value is `epoch_micros`: microseconds since 1970-01-01T00:00:00.
//! Years 1970 through 9999 are supported; log corpora live well inside that.
use vstd::prelude::*;

use crate::text::{
    all_dec_digits, dec_padded, dec_value, lemma_dec_padded_value, lemma_dec_value_bound,
    parse_dec_u64, parse_u64_range, pow10, render_dec_padded,
};

verus! {

pub const MICROS_PER_SECOND: u64 = 1000000;
pub const SECONDS_PER_DAY: u64 = 86400;
pub const MICROS_PER_DAY: u64 = 86400000000;

// ---------------------------------------------------------------------------
// the civil calendar
// ---------------------------------------------------------------------------

pub open spec fn is_leap_year(y: int) -> bool {
    y % 4 == 0 && (y % 100 != 0 || y % 400 == 0)
}

pub open spec fn year_days(y: int) -> int {
    if is_leap_year(y) { 366 } else { 365 }
}

pub open spec fn days_in_month(y: int, m: int) -> int {
    if m == 2 {
        if is_leap_year(y) { 29 } else { 28 }
    } else if m == 4 || m == 6 || m == 9 || m == 11 {
        30
    } else {
        31
    }
}

/// Days from the start of year `y` to the start of month `m` (1-based; `m`
/// may be 13, giving the whole year).
pub open spec fn days_before_month(y: int, m: int) -> int
    decreases m,
{
    if m <= 1 { 0 } else { days_before_month(y, m - 1) + days_in_month(y, m - 1) }
}

/// Days from 1970-01-01 to the start of year `y`.
pub open spec fn days_to_year(y: int) -> int
    decreases y - 1970,
{
    if y <= 1970 { 0 } else { days_to_year(y - 1) + year_days(y - 1) }
}

pub proof fn lemma_days_before_month_total(y: int)
    ensures
        days_before_month(y, 13) == year_days(y),
{
    reveal_with_fuel(days_before_month, 14);
}

pub proof fn lemma_days_to_year_bounds(y: int)
    requires
        y >= 1970,
    ensures
        365 * (y - 1970) <= days_to_year(y) <= 366 * (y - 1970),
    decreases y - 1970,
{
    if y > 1970 {
        lemma_days_to_year_bounds(y - 1);
    }
}

pub proof fn lemma_days_to_year_mono(a: int, b: int)
    requires
        1970 <= a <= b,
    ensures
        days_to_year(a) <= days_to_year(b),
        b > a ==> days_to_year(a) + 365 <= days_to_year(b),
    decreases b - a,
{
    if b > a {
        lemma_days_to_year_mono(a, b - 1);
    }
}

// ---------------------------------------------------------------------------
// the types
// ---------------------------------------------------------------------------

/// A wall-clock time of day.
#[derive(Clone, Copy, PartialEq, Eq, Structural, Debug)]
pub struct TimeOfDay {
    pub hour: u8,
    pub minute: u8,
    pub second: u8,
    pub micro: u32,
}

impl TimeOfDay {
    pub open spec fn wf(self) -> bool {
        self.hour < 24 && self.minute < 60 && self.second < 60 && self.micro < 1000000
    }

    /// Microseconds since midnight.
    pub open spec fn micros(self) -> int {
        ((self.hour * 3600 + self.minute * 60 + self.second) * 1000000) + self.micro
    }
}

/// A civil date and time.
#[derive(Clone, Copy, PartialEq, Eq, Structural, Debug)]
pub struct DateTime {
    pub year: u32,
    pub month: u8,
    pub day: u8,
    pub time: TimeOfDay,
}

impl DateTime {
    pub open spec fn wf(self) -> bool {
        &&& 1970 <= self.year <= 9999
        &&& 1 <= self.month <= 12
        &&& 1 <= self.day <= days_in_month(self.year as int, self.month as int)
        &&& self.time.wf()
    }

    /// Days since 1970-01-01.
    pub open spec fn day_number(self) -> int {
        days_to_year(self.year as int) + days_before_month(self.year as int, self.month as int)
            + self.day - 1
    }

    /// Microseconds since 1970-01-01T00:00:00.
    pub open spec fn epoch_micros(self) -> int {
        self.day_number() * (MICROS_PER_DAY as int) + self.time.micros()
    }

    /// The same date at another clock time.
    pub fn with_time(self, t: TimeOfDay) -> (r: DateTime)
        ensures
            r == (DateTime { time: t, ..self }),
    {
        DateTime { year: self.year, month: self.month, day: self.day, time: t }
    }
}

/// One more than the last supported day number: the first day of year 10000.
pub open spec fn day_limit() -> int {
    days_to_year(10000)
}

/// One more than the last supported timestamp, in microseconds.
pub open spec fn epoch_micros_limit() -> int {
    day_limit() * (MICROS_PER_DAY as int)
}

/// A well-formed timestamp stays under the limit.
pub proof fn lemma_epoch_micros_in_range(dt: DateTime)
    requires
        dt.wf(),
    ensures
        0 <= dt.epoch_micros() < epoch_micros_limit(),
        0 <= dt.day_number() < day_limit(),
{
    let y = dt.year as int;
    let m = dt.month as int;
    lemma_days_before_month_mono(y, m + 1, 13);
    lemma_days_before_month_total(y);
    assert(days_before_month(y, m + 1) == days_before_month(y, m) + days_in_month(y, m));
    assert(days_before_month(y, m) + dt.day - 1 < year_days(y));
    assert(days_to_year(y + 1) == days_to_year(y) + year_days(y));
    lemma_days_to_year_mono(y + 1, 10000);
    lemma_days_to_year_bounds(y);
    lemma_days_before_month_nonneg(y, m);
}

pub proof fn lemma_days_before_month_mono(y: int, a: int, b: int)
    requires
        a <= b,
    ensures
        days_before_month(y, a) <= days_before_month(y, b),
    decreases b - a,
{
    if b > a {
        lemma_days_before_month_mono(y, a, b - 1);
    }
}

pub proof fn lemma_days_before_month_nonneg(y: int, m: int)
    ensures
        days_before_month(y, m) >= 0,
    decreases m,
{
    if m > 1 {
        lemma_days_before_month_nonneg(y, m - 1);
    }
}

// ---------------------------------------------------------------------------
// executable calendar arithmetic
// ---------------------------------------------------------------------------

pub fn leap_year(y: u32) -> (r: bool)
    ensures
        r == is_leap_year(y as int),
{
    y % 4 == 0 && (y % 100 != 0 || y % 400 == 0)
}

pub fn year_length(y: u32) -> (r: u64)
    ensures
        r == year_days(y as int),
{
    if leap_year(y) { 366 } else { 365 }
}

pub fn month_days(y: u32, m: u8) -> (r: u8)
    ensures
        r == days_in_month(y as int, m as int),
{
    if m == 2 {
        if leap_year(y) { 29 } else { 28 }
    } else if m == 4 || m == 6 || m == 9 || m == 11 {
        30
    } else {
        31
    }
}

/// Days from 1970-01-01 to the start of year `y`.
pub fn days_to_year_count(y: u32) -> (r: u64)
    requires
        1970 <= y <= 10000,
    ensures
        r == days_to_year(y as int),
{
    let mut cur: u32 = 1970;
    let mut acc: u64 = 0;
    while cur < y
        invariant
            1970 <= cur <= y <= 10000,
            acc == days_to_year(cur as int),
        decreases y - cur,
    {
        proof {
            lemma_days_to_year_bounds(cur as int);
        }
        let len: u64 = if leap_year(cur) { 366 } else { 365 };
        acc = acc + len;
        cur = cur + 1;
    }
    acc
}

/// One more than the last supported timestamp, in microseconds.
pub fn epoch_micros_limit_value() -> (r: u64)
    ensures
        r == epoch_micros_limit(),
{
    let days = days_to_year_count(10000);
    proof {
        lemma_days_to_year_bounds(10000);
    }
    days * MICROS_PER_DAY
}

/// The civil form of an absolute microsecond count.
pub fn datetime_from_epoch_micros(us: u64) -> (r: DateTime)
    requires
        us < epoch_micros_limit(),
    ensures
        r.wf(),
        r.epoch_micros() == us,
{
    proof {
        lemma_days_to_year_bounds(10000);
    }
    let micro: u64 = us % MICROS_PER_SECOND;
    let total_seconds: u64 = us / MICROS_PER_SECOND;
    let second_of_day: u64 = total_seconds % SECONDS_PER_DAY;
    let days: u64 = total_seconds / SECONDS_PER_DAY;
    assert(days * (MICROS_PER_DAY as int) + second_of_day * 1000000 + micro == us) by (nonlinear_arith)
        requires
            micro == us % 1000000,
            total_seconds == us / 1000000,
            second_of_day == total_seconds % 86400,
            days == total_seconds / 86400,
            MICROS_PER_DAY == 86400000000,
    ;
    assert(days < day_limit()) by (nonlinear_arith)
        requires
            days * (MICROS_PER_DAY as int) + second_of_day * 1000000 + micro == us,
            us < day_limit() * (MICROS_PER_DAY as int),
            0 <= second_of_day,
            0 <= micro,
            0 <= days,
            MICROS_PER_DAY == 86400000000,
    ;

    let second: u8 = (second_of_day % 60) as u8;
    let minute: u8 = ((second_of_day / 60) % 60) as u8;
    let hour: u8 = (second_of_day / 3600) as u8;
    assert(hour * 3600 + minute * 60 + second == second_of_day && hour < 24) by (nonlinear_arith)
        requires
            second_of_day < 86400,
            second == second_of_day % 60,
            minute == (second_of_day / 60) % 60,
            hour == second_of_day / 3600,
    ;

    // find the year
    let mut year: u32 = 1970;
    let mut rem: u64 = days;
    proof {
        lemma_days_to_year_mono(1970, 10000);
    }
    while rem >= year_length(year)
        invariant
            1970 <= year <= 9999,
            days < day_limit(),
            days_to_year(year as int) + rem == days,
        decreases rem,
    {
        let len: u64 = year_length(year);
        proof {
            assert(days_to_year(year as int + 1) == days_to_year(year as int) + year_days(year as int));
            if year as int + 1 > 9999 {
                assert(days_to_year(10000) <= days) by {
                    lemma_days_to_year_mono(year as int + 1, 10000);
                };
                assert(false);
            }
        }
        rem = rem - len;
        year = year + 1;
    }
    assert(rem < year_days(year as int));

    // find the month
    let mut month: u8 = 1;
    let mut mrem: u64 = rem;
    proof {
        lemma_days_before_month_total(year as int);
    }
    while mrem >= month_days(year, month) as u64
        invariant
            1 <= month <= 12,
            rem < year_days(year as int),
            days_before_month(year as int, month as int) + mrem == rem,
            1970 <= year <= 9999,
            days_to_year(year as int) + rem == days,
        decreases mrem,
    {
        let len: u8 = month_days(year, month);
        proof {
            if month as int + 1 > 12 {
                lemma_days_before_month_total(year as int);
                assert(days_before_month(year as int, 13) == days_before_month(year as int, 12)
                    + days_in_month(year as int, 12));
                assert(false);
            }
        }
        mrem = mrem - len as u64;
        month = month + 1;
    }
    assert(mrem < days_in_month(year as int, month as int));

    let day: u8 = (mrem + 1) as u8;
    let dt = DateTime {
        year,
        month,
        day,
        time: TimeOfDay { hour, minute, second, micro: micro as u32 },
    };
    assert(dt.epoch_micros() == us) by {
        assert(dt.day_number() == days);
        assert(dt.time.micros() == second_of_day * 1000000 + micro);
    }
    dt
}

/// The absolute microsecond count of a well-formed timestamp.
pub fn epoch_micros_value(dt: &DateTime) -> (r: u64)
    requires
        dt.wf(),
    ensures
        r == dt.epoch_micros(),
        r < epoch_micros_limit(),
{
    proof {
        lemma_epoch_micros_in_range(*dt);
        lemma_days_to_year_bounds(10000);
        lemma_days_to_year_mono(dt.year as int, 10000);
        lemma_days_to_year_bounds(dt.year as int);
    }
    let ydays = days_to_year_count(dt.year);
    let mut mdays: u64 = 0;
    let mut m: u8 = 1;
    while m < dt.month
        invariant
            1 <= m <= dt.month,
            dt.wf(),
            mdays == days_before_month(dt.year as int, m as int),
        decreases dt.month - m,
    {
        proof {
            lemma_days_before_month_nonneg(dt.year as int, m as int);
            lemma_days_before_month_mono(dt.year as int, m as int + 1, 13);
            lemma_days_before_month_total(dt.year as int);
        }
        mdays = mdays + month_days(dt.year, m) as u64;
        m = m + 1;
    }
    let day_number: u64 = ydays + mdays + (dt.day as u64 - 1);
    assert(day_number == dt.day_number());
    assert(day_number < day_limit());
    let t = &dt.time;
    let second_of_day: u64 = t.hour as u64 * 3600 + t.minute as u64 * 60 + t.second as u64;
    let r = day_number * MICROS_PER_DAY + second_of_day * MICROS_PER_SECOND + t.micro as u64;
    assert(r == dt.epoch_micros() && r < epoch_micros_limit()) by (nonlinear_arith)
        requires
            day_number == dt.day_number(),
            day_number < day_limit(),
            r == day_number * MICROS_PER_DAY + second_of_day * MICROS_PER_SECOND + t.micro,
            second_of_day == t.hour * 3600 + t.minute * 60 + t.second,
            second_of_day < 86400,
            t.micro < 1000000,
            dt.epoch_micros() == dt.day_number() * (MICROS_PER_DAY as int) + dt.time.micros(),
            dt.time.micros() == second_of_day * 1000000 + t.micro,
            epoch_micros_limit() == day_limit() * (MICROS_PER_DAY as int),
            MICROS_PER_DAY == 86400000000,
            MICROS_PER_SECOND == 1000000,
    ;
    r
}

/// Whether `a` is no later than `b`.
pub fn datetime_le(a: &DateTime, b: &DateTime) -> (r: bool)
    requires
        a.wf(),
        b.wf(),
    ensures
        r == (a.epoch_micros() <= b.epoch_micros()),
{
    epoch_micros_value(a) <= epoch_micros_value(b)
}

// ---------------------------------------------------------------------------
// text form: `YYYY-MM-DD<sep>HH:MM:SS.ffffff`
// ---------------------------------------------------------------------------

/// The text of a clock time, with a six-digit fraction.
pub open spec fn render_time(t: TimeOfDay) -> Seq<char> {
    dec_padded(t.hour as nat, 2) + seq![':'] + dec_padded(t.minute as nat, 2) + seq![':']
        + dec_padded(t.second as nat, 2) + seq!['.'] + dec_padded(t.micro as nat, 6)
}

/// The text of a timestamp, with the given separator between date and time.
pub open spec fn render_datetime(dt: DateTime, sep: char) -> Seq<char> {
    dec_padded(dt.year as nat, 4) + seq!['-'] + dec_padded(dt.month as nat, 2) + seq!['-']
        + dec_padded(dt.day as nat, 2) + seq![sep] + render_time(dt.time)
}

pub fn render_time_chars(t: &TimeOfDay) -> (r: Vec<char>)
    ensures
        r@ == render_time(*t),
{
    let mut v = render_dec_padded(t.hour as u64, 2);
    v.push(':');
    let mut p = render_dec_padded(t.minute as u64, 2);
    v.append(&mut p);
    v.push(':');
    let mut p = render_dec_padded(t.second as u64, 2);
    v.append(&mut p);
    v.push('.');
    let mut p = render_dec_padded(t.micro as u64, 6);
    v.append(&mut p);
    assert(v@ =~= render_time(*t));
    v
}

pub fn render_datetime_chars(dt: &DateTime, sep: char) -> (r: Vec<char>)
    ensures
        r@ == render_datetime(*dt, sep),
{
    let mut v = render_dec_padded(dt.year as u64, 4);
    v.push('-');
    let mut p = render_dec_padded(dt.month as u64, 2);
    v.append(&mut p);
    v.push('-');
    let mut p = render_dec_padded(dt.day as u64, 2);
    v.append(&mut p);
    v.push(sep);
    let mut p = render_time_chars(&dt.time);
    v.append(&mut p);
    assert(v@ =~= render_datetime(*dt, sep));
    v
}

/// The microseconds a trailing fraction denotes: nothing there means zero;
/// a dot takes one to six digits, scaled to microseconds.
pub open spec fn spec_parse_fraction(s: Seq<char>, i: int) -> Option<u64> {
    if i == s.len() {
        Some(0)
    } else if s[i] == '.' {
        let ds = s.subrange(i + 1, s.len() as int);
        if 1 <= ds.len() <= 6 && all_dec_digits(ds) {
            Some((dec_value(ds) * pow10((6 - ds.len()) as nat)) as u64)
        } else {
            None
        }
    } else {
        None
    }
}

/// A clock time read from position `i` to the end of `s`.
pub open spec fn spec_parse_time_at(s: Seq<char>, i: int) -> Option<TimeOfDay> {
    if i < 0 || s.len() < i + 8 || s[i + 2] != ':' || s[i + 5] != ':' {
        None
    } else {
        let h = parse_dec_u64(s.subrange(i, i + 2));
        let m = parse_dec_u64(s.subrange(i + 3, i + 5));
        let sec = parse_dec_u64(s.subrange(i + 6, i + 8));
        let us = spec_parse_fraction(s, i + 8);
        if h is Some && m is Some && sec is Some && us is Some && h->0 < 24 && m->0 < 60
            && sec->0 < 60 {
            Some(
                TimeOfDay {
                    hour: h->0 as u8,
                    minute: m->0 as u8,
                    second: sec->0 as u8,
                    micro: us->0 as u32,
                },
            )
        } else {
            None
        }
    }
}

/// A full timestamp read from the whole of `s`.
pub open spec fn spec_parse_datetime(s: Seq<char>, sep: char) -> Option<DateTime> {
    if s.len() < 19 || s[4] != '-' || s[7] != '-' || s[10] != sep {
        None
    } else {
        let y = parse_dec_u64(s.subrange(0, 4));
        let mo = parse_dec_u64(s.subrange(5, 7));
        let d = parse_dec_u64(s.subrange(8, 10));
        let t = spec_parse_time_at(s, 11);
        if y is Some && mo is Some && d is Some && t is Some && 1970 <= y->0 <= 9999 && 1 <= mo->0
            <= 12 && 1 <= d->0 <= days_in_month(y->0 as int, mo->0 as int) {
            Some(DateTime { year: y->0 as u32, month: mo->0 as u8, day: d->0 as u8, time: t->0 })
        } else {
            None
        }
    }
}

fn pow10_small(k: usize) -> (r: u64)
    requires
        k <= 6,
    ensures
        r == pow10(k as nat),
{
    proof {
        reveal_with_fuel(pow10, 8);
    }
    if k == 0 { 1 } else if k == 1 { 10 } else if k == 2 { 100 } else if k == 3 { 1000 }
    else if k == 4 { 10000 } else if k == 5 { 100000 } else { 1000000 }
}

fn parse_fraction(s: &Vec<char>, i: usize) -> (r: Option<u64>)
    requires
        i <= s@.len(),
    ensures
        r == spec_parse_fraction(s@, i as int),
        r is Some ==> r->0 < 1000000,
{
    if i == s.len() {
        return Some(0);
    }
    if s[i] != '.' {
        return None;
    }
    let ds_len = s.len() - (i + 1);
    if ds_len < 1 || ds_len > 6 {
        return None;
    }
    let ghost ds = s@.subrange(i + 1, s@.len() as int);
    match parse_u64_range(s, i + 1, s.len()) {
        Some(v) => {
            proof {
                lemma_dec_value_bound(ds);
                crate::text::lemma_pow10_pos((6 - ds.len()) as nat);
                assert(dec_value(ds) * pow10((6 - ds.len()) as nat) < pow10(ds.len()) * pow10(
                    (6 - ds.len()) as nat,
                )) by (nonlinear_arith)
                    requires
                        0 <= dec_value(ds) < pow10(ds.len()),
                        pow10((6 - ds.len()) as nat) >= 1,
                ;
                crate::text::lemma_pow10_add(ds.len(), (6 - ds.len()) as nat);
                reveal_with_fuel(pow10, 8);
                assert(dec_value(ds) * pow10((6 - ds.len()) as nat) < 1000000);
            }
            let scale = pow10_small(6 - ds_len);
            assert(v * scale == dec_value(ds) * pow10((6 - ds.len()) as nat));
            Some(v * scale)
        },
        None => {
            proof {
                if 1 <= ds.len() <= 6 && all_dec_digits(ds) {
                    lemma_dec_value_bound(ds);
                    crate::text::lemma_pow10_mono(ds.len(), 6);
                    reveal_with_fuel(pow10, 8);
                    assert(dec_value(ds) <= u64::MAX);
                    assert(false);
                }
            }
            None
        },
    }
}

pub fn parse_time_at(s: &Vec<char>, i: usize) -> (r: Option<TimeOfDay>)
    ensures
        r == spec_parse_time_at(s@, i as int),
        r is Some ==> r->0.wf(),
{
    if s.len() < 8 || i > s.len() - 8 {
        return None;
    }
    if s[i + 2] != ':' || s[i + 5] != ':' {
        return None;
    }
    let h = parse_u64_range(s, i, i + 2);
    let m = parse_u64_range(s, i + 3, i + 5);
    let sec = parse_u64_range(s, i + 6, i + 8);
    let us = parse_fraction(s, i + 8);
    match (h, m, sec, us) {
        (Some(h), Some(m), Some(sec), Some(us)) => {
            if h < 24 && m < 60 && sec < 60 {
                Some(TimeOfDay { hour: h as u8, minute: m as u8, second: sec as u8, micro: us as u32 })
            } else {
                None
            }
        },
        _ => None,
    }
}

pub fn parse_datetime(s: &Vec<char>, sep: char) -> (r: Option<DateTime>)
    ensures
        r == spec_parse_datetime(s@, sep),
        r is Some ==> r->0.wf(),
{
    if s.len() < 19 {
        return None;
    }
    if s[4] != '-' || s[7] != '-' || s[10] != sep {
        return None;
    }
    let y = parse_u64_range(s, 0, 4);
    let mo = parse_u64_range(s, 5, 7);
    let d = parse_u64_range(s, 8, 10);
    let t = parse_time_at(s, 11);
    match (y, mo, d, t) {
        (Some(y), Some(mo), Some(d), Some(t)) => {
            if 1970 <= y && y <= 9999 && 1 <= mo && mo <= 12 && 1 <= d && d <= month_days(
                y as u32,
                mo as u8,
            ) as u64 {
                Some(DateTime { year: y as u32, month: mo as u8, day: d as u8, time: t })
            } else {
                None
            }
        },
        _ => None,
    }
}

/// Rendering a well-formed timestamp and parsing it back returns it exactly.
pub proof fn lemma_render_parse_roundtrip(dt: DateTime, sep: char)
    requires
        dt.wf(),
        sep != '-',
    ensures
        spec_parse_datetime(render_datetime(dt, sep), sep) == Some(dt),
{
    reveal_with_fuel(pow10, 8);
    let s = render_datetime(dt, sep);
    lemma_dec_padded_value(dt.year as nat, 4);
    lemma_dec_padded_value(dt.month as nat, 2);
    lemma_dec_padded_value(dt.day as nat, 2);
    lemma_dec_padded_value(dt.time.hour as nat, 2);
    lemma_dec_padded_value(dt.time.minute as nat, 2);
    lemma_dec_padded_value(dt.time.second as nat, 2);
    lemma_dec_padded_value(dt.time.micro as nat, 6);
    assert(s.len() == 26);
    assert(s.subrange(0, 4) =~= dec_padded(dt.year as nat, 4));
    assert(s[4] == '-');
    assert(s.subrange(5, 7) =~= dec_padded(dt.month as nat, 2));
    assert(s[7] == '-');
    assert(s.subrange(8, 10) =~= dec_padded(dt.day as nat, 2));
    assert(s[10] == sep);
    assert(s.subrange(11, 13) =~= dec_padded(dt.time.hour as nat, 2));
    assert(s[13] == ':');
    assert(s.subrange(14, 16) =~= dec_padded(dt.time.minute as nat, 2));
    assert(s[16] == ':');
    assert(s.subrange(17, 19) =~= dec_padded(dt.time.second as nat, 2));
    assert(s[19] == '.');
    let ds = s.subrange(20, 26);
    assert(ds =~= dec_padded(dt.time.micro as nat, 6));
    assert(all_dec_digits(ds) && ds.len() == 6);
    assert(dec_value(ds) == dt.time.micro as nat);
    assert(dec_value(ds) * pow10((6 - ds.len()) as nat) == dt.time.micro) by (nonlinear_arith)
        requires
            dec_value(ds) == dt.time.micro as nat,
            pow10((6 - ds.len()) as nat) == 1,
    ;
    assert(spec_parse_fraction(s, 19) == Some(dt.time.micro as u64));
    assert(spec_parse_time_at(s, 11) == Some(dt.time));
    assert(spec_parse_datetime(s, sep) == Some(dt));
}


/// A clock time the grammar accepts is well-formed.
pub proof fn lemma_parse_time_wf(s: Seq<char>, i: int)
    ensures
        spec_parse_time_at(s, i) matches Some(t) ==> t.wf(),
{
    if spec_parse_time_at(s, i) is Some {
        let us = spec_parse_fraction(s, i + 8);
        if i + 8 < s.len() && s[i + 8] == '.' {
            let ds = s.subrange(i + 8 + 1, s.len() as int);
            if 1 <= ds.len() <= 6 && all_dec_digits(ds) {
                lemma_dec_value_bound(ds);
                crate::text::lemma_pow10_add(ds.len(), (6 - ds.len()) as nat);
                crate::text::lemma_pow10_pos((6 - ds.len()) as nat);
                assert(dec_value(ds) * pow10((6 - ds.len()) as nat) < pow10(ds.len()) * pow10(
                    (6 - ds.len()) as nat,
                )) by (nonlinear_arith)
                    requires
                        0 <= dec_value(ds) < pow10(ds.len()),
                        pow10((6 - ds.len()) as nat) >= 1,
                ;
                reveal_with_fuel(pow10, 8);
                assert(us matches Some(u) ==> u < 1000000);
            }
        }
    }
}

/// A timestamp the grammar accepts is well-formed.
pub proof fn lemma_parse_datetime_wf(s: Seq<char>, sep: char)
    ensures
        spec_parse_datetime(s, sep) matches Some(dt) ==> dt.wf(),
{
    lemma_parse_time_wf(s, 11);
}

/// The timestamp a whole number of days later, when it stays in range.
pub fn datetime_plus_days(dt: &DateTime, n: u64) -> (r: Option<DateTime>)
    requires
        dt.wf(),
    ensures
        match r {
            Some(out) => out.wf() && out.epoch_micros() == dt.epoch_micros() + n * (
            MICROS_PER_DAY as int),
            None => dt.epoch_micros() + n * (MICROS_PER_DAY as int) >= epoch_micros_limit(),
        },
{
    let us = epoch_micros_value(dt);
    let limit = epoch_micros_limit_value();
    if n >= 3000000 {
        proof {
            lemma_days_to_year_bounds(10000);
            assert(n * (MICROS_PER_DAY as int) >= 3000000 * (MICROS_PER_DAY as int))
                by (nonlinear_arith)
                requires
                    n >= 3000000,
                    MICROS_PER_DAY == 86400000000,
            ;
        }
        return None;
    }
    let add = n * MICROS_PER_DAY;
    if add < limit && us < limit - add {
        Some(datetime_from_epoch_micros(us + add))
    } else {
        None
    }
}

} // verus!
