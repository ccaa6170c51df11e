//! Time stamps of log lines: a Unix time rendered as `YYYY-MM-DD HH:MM:SS`
//! in UTC, and the log-line layouts that carry it.

use vstd::prelude::*;
use crate::text::{decimal, push_char, u64_to_decimal};

verus! {

/// Whether `y` is a leap year of the Gregorian calendar.
pub open spec fn is_leap(y: int) -> bool {
    (y % 4 == 0 && y % 100 != 0) || y % 400 == 0
}

/// Number of days of year `y`.
pub open spec fn year_len(y: int) -> int {
    if is_leap(y) {
        366
    } else {
        365
    }
}

/// Number of days of month `m` (1 to 12).
pub open spec fn month_len(m: int, leap: bool) -> int {
    if m == 2 {
        if leap {
            29
        } else {
            28
        }
    } else if m == 4 || m == 6 || m == 9 || m == 11 {
        30
    } else {
        31
    }
}

/// Quotient of `a` by `b > 0`, rounded toward zero as Rust's `/` does.
pub open spec fn tdiv(a: int, b: int) -> int {
    if a >= 0 {
        a / b
    } else {
        -((-a) / b)
    }
}

/// Remainder of `a` by `b > 0`, with the sign of `a` as Rust's `%` has it.
pub open spec fn trem(a: int, b: int) -> int {
    a - b * tdiv(a, b)
}

/// Counting whole years from `year` on: the year that `days` days after the
/// start of `year` falls in, and the day of that year.
pub open spec fn year_walk(days: int, year: int) -> (int, int)
    decreases days,
{
    if days < year_len(year) {
        (year, days)
    } else {
        year_walk(days - year_len(year), year + 1)
    }
}

/// Counting whole months from month `m` on: the month and the day of the
/// month (from 1) of day `rem` of the year; `(12, 31)` past December.
pub open spec fn month_walk(rem: int, m: int, leap: bool) -> (int, int)
    decreases 13 - m,
{
    if m > 12 {
        (12, 31)
    } else if rem < month_len(m, leap) {
        (m, rem + 1)
    } else {
        month_walk(rem - month_len(m, leap), m + 1, leap)
    }
}

/// The printed fields of a Unix time: year, month, day, hour, minute, second.
pub open spec fn clock_fields(secs: int) -> (int, int, int, int, int, int) {
    let days = tdiv(secs, 86400);
    let rem = trem(secs, 86400);
    let (year, day_of_year) = year_walk(days, 1970);
    let (month, day) = month_walk(day_of_year, 1, is_leap(year));
    (year, month, (day as u8) as int, tdiv(rem, 3600), tdiv(trem(rem, 3600), 60), trem(rem, 60))
}

/// `k` zeros.
pub open spec fn zeros(k: int) -> Seq<char> {
    Seq::new(if k > 0 { k as nat } else { 0 }, |i: int| '0')
}

/// An integer padded with zeros to `w` characters, the sign counted, as
/// `{:0w}` writes it.
pub open spec fn padded(n: int, w: int) -> Seq<char> {
    if n < 0 {
        seq!['-'] + zeros(w - 1 - decimal((-n) as nat).len()) + decimal((-n) as nat)
    } else {
        zeros(w - decimal(n as nat).len()) + decimal(n as nat)
    }
}

/// A Unix time as `YYYY-MM-DD HH:MM:SS`.
pub open spec fn rendered(secs: int) -> Seq<char> {
    let (y, mo, d, h, mi, s) = clock_fields(secs);
    padded(y, 4) + seq!['-'] + padded(mo, 2) + seq!['-'] + padded(d, 2) + seq![' '] + padded(h, 2)
        + seq![':'] + padded(mi, 2) + seq![':'] + padded(s, 2)
}

/// Days from 1970-01-01 to the start of year `y` (from 1970 on).
pub open spec fn days_before_year(y: int) -> int
    decreases y - 1970,
{
    if y <= 1970 {
        0
    } else {
        days_before_year(y - 1) + year_len(y - 1)
    }
}

/// Days from the start of a year to the start of month `m`.
pub open spec fn days_before_month(m: int, leap: bool) -> int
    decreases m,
{
    if m <= 1 {
        0
    } else {
        days_before_month(m - 1, leap) + month_len(m - 1, leap)
    }
}

proof fn lemma_year_walk(days: int, year: int)
    requires
        days >= 0,
        year >= 1970,
    ensures
        year_walk(days, year).0 >= year,
        0 <= year_walk(days, year).1 < year_len(year_walk(days, year).0),
        days_before_year(year_walk(days, year).0) + year_walk(days, year).1 == days_before_year(year)
            + days,
    decreases days,
{
    if days >= year_len(year) {
        lemma_year_walk(days - year_len(year), year + 1);
    }
}

proof fn lemma_month_walk(rem: int, m: int, leap: bool)
    requires
        1 <= m <= 13,
        rem >= 0,
        days_before_month(m, leap) + rem < days_before_month(13, leap),
    ensures
        m <= month_walk(rem, m, leap).0 <= 12,
        1 <= month_walk(rem, m, leap).1 <= month_len(month_walk(rem, m, leap).0, leap),
        days_before_month(month_walk(rem, m, leap).0, leap) + month_walk(rem, m, leap).1 - 1
            == days_before_month(m, leap) + rem,
    decreases 13 - m,
{
    if m <= 12 && rem >= month_len(m, leap) {
        lemma_month_walk(rem - month_len(m, leap), m + 1, leap);
    }
}

proof fn lemma_months_fill_year(leap: bool)
    ensures
        days_before_month(13, leap) == if leap {
            366int
        } else {
            365int
        },
{
    reveal_with_fuel(days_before_month, 13);
}

/// The rendered fields of a Unix time from 1970 on name its calendar date
/// and time of day: day `d` of month `m` of year `y` is the right number of
/// days after 1970-01-01, and `h:mi:s` is the time within that day.
pub proof fn lemma_clock_fields_are_the_date(secs: int)
    requires
        secs >= 0,
    ensures
        ({
            let (y, m, d, h, mi, s) = clock_fields(secs);
            &&& y >= 1970
            &&& 1 <= m <= 12
            &&& 1 <= d <= month_len(m, is_leap(y))
            &&& days_before_year(y) + days_before_month(m, is_leap(y)) + d - 1 == secs / 86400
            &&& 0 <= h < 24 && 0 <= mi < 60 && 0 <= s < 60
            &&& h * 3600 + mi * 60 + s == secs % 86400
        }),
{
    let days = tdiv(secs, 86400);
    let (year, doy) = year_walk(days, 1970);
    lemma_year_walk(days, 1970);
    let leap = is_leap(year);
    lemma_months_fill_year(leap);
    lemma_month_walk(doy, 1, leap);
    let (month, day) = month_walk(doy, 1, leap);
    assert(1 <= day <= 31);
    assert((day as u8) as int == day);
    let rem = trem(secs, 86400);
    assert(rem == secs % 86400);
    assert(0 <= rem < 86400);
}

/// `(q, r)` with `q` the quotient of `a` by `b`, rounded toward zero, and
/// `r` the remainder with the sign of `a`.
fn trunc_divrem(a: i64, b: i64) -> (r: (i64, i64))
    requires
        b >= 2,
    ensures
        r.0 == tdiv(a as int, b as int),
        r.1 == trem(a as int, b as int),
{
    if a >= 0 {
        let q = ((a as u64) / (b as u64)) as i64;
        proof {
            assert(q * b <= a) by (nonlinear_arith)
                requires
                    q == a / b,
                    a >= 0,
                    b > 0,
            ;
        }
        (q, a - q * b)
    } else {
        let p: u64 = (0i128 - (a as i128)) as u64;
        let pq: u64 = p / (b as u64);
        proof {
            assert(pq * b <= p && pq * 2 <= pq * b) by (nonlinear_arith)
                requires
                    pq == (p as int) / (b as int),
                    p >= 0,
                    b >= 2,
            ;
        }
        let q = pq as i64;
        let r = (a as i128) + (q as i128) * (b as i128);
        proof {
            assert(-(b as int) < r <= 0) by (nonlinear_arith)
                requires
                    r == a + q * b,
                    q == (-a) / (b as int),
                    a < 0,
                    b >= 2,
            ;
            assert(b * (0 - q) == -(q * b)) by (nonlinear_arith);
        }
        (0 - q, r as i64)
    }
}

fn is_leap_year(year: i64) -> (b: bool)
    requires
        year >= 0,
    ensures
        b == is_leap(year as int),
{
    (year % 4 == 0 && year % 100 != 0) || year % 400 == 0
}

fn month_days(m: i64, leap: bool) -> (n: i64)
    ensures
        n == month_len(m as int, leap),
{
    if m == 2 {
        if leap {
            29
        } else {
            28
        }
    } else if m == 4 || m == 6 || m == 9 || m == 11 {
        30
    } else {
        31
    }
}

/// The month and day (from 1) of day `day_of_year` of a year.
fn day_to_month_day(day_of_year: i64, is_leap: bool) -> (r: (u8, u8))
    requires
        day_of_year < 366,
    ensures
        r.0 as int == month_walk(day_of_year as int, 1, is_leap).0,
        r.1 as int == (month_walk(day_of_year as int, 1, is_leap).1 as u8) as int,
{
    let mut remaining = day_of_year;
    let mut m: i64 = 1;
    while m <= 12
        invariant
            1 <= m <= 13,
            remaining < 366,
            month_walk(day_of_year as int, 1, is_leap) == month_walk(remaining as int, m as int, is_leap),
        decreases 13 - m,
    {
        let days = month_days(m, is_leap);
        if remaining < days {
            return (m as u8, (remaining + 1) as u8);
        }
        remaining = remaining - days;
        m = m + 1;
    }
    (12, 31)
}

/// `n` padded with zeros to `w` characters, the sign counted.
fn pad(n: i64, w: usize) -> (s: String)
    ensures
        s@ == padded(n as int, w as int),
{
    let neg = n < 0;
    let mag: u64 = if neg {
        (0i128 - (n as i128)) as u64
    } else {
        n as u64
    };
    let digits = u64_to_decimal(mag);
    let len = digits.as_str().unicode_len();
    let mut s = String::new();
    let mut target: usize = w;
    if neg {
        push_char(&mut s, '-');
        target = if w > 0 {
            w - 1
        } else {
            0
        };
    }
    let ghost lead = s@;
    let mut k: usize = len;
    while k < target
        invariant
            len <= k,
            k <= target || target < len,
            target < len ==> k == len,
            s@ == lead + zeros(k - len),
        decreases target - k,
    {
        push_char(&mut s, '0');
        proof {
            assert(zeros(k + 1 - len) =~= zeros(k - len).push('0'));
        }
        k = k + 1;
    }
    s.append(digits.as_str());
    proof {
        assert(len == decimal(mag as nat).len());
        if neg {
            assert(zeros(k - len).len() == zeros(w - 1 - len).len());
            assert(zeros(k - len) =~= zeros(w - 1 - len));
            assert(s@ =~= seq!['-'] + zeros(w - 1 - decimal((-n) as nat).len()) + decimal((-n) as nat));
        } else {
            assert(lead =~= Seq::<char>::empty());
            assert(zeros(k - len).len() == zeros(w - len).len());
            assert(zeros(k - len) =~= zeros(w - len));
            assert(s@ =~= zeros(w - decimal(n as nat).len()) + decimal(n as nat));
        }
    }
    s
}

/// A date and time, kept as a Unix time in seconds.
#[derive(Debug, Clone, Copy, PartialEq, Eq, Structural)]
pub struct NaiveDateTime {
    pub timestamp: i64,
}

impl Default for NaiveDateTime {
    fn default() -> (d: Self)
        ensures
            d.timestamp == 0,
    {
        NaiveDateTime { timestamp: 0 }
    }
}

impl NaiveDateTime {
    /// The date and time `secs` seconds after the Unix epoch; every time is
    /// accepted, and the nanoseconds are not kept.
    pub fn from_timestamp_opt(secs: i64, nsecs: u32) -> (r: Option<Self>)
        ensures
            r == Some(NaiveDateTime { timestamp: secs }),
    {
        Some(NaiveDateTime { timestamp: secs })
    }

    /// The date and time ready to be written; the layout is always
    /// `%Y-%m-%d %H:%M:%S`, whatever `fmt` says.
    pub fn format(&self, fmt: &str) -> (f: FormattedTime)
        ensures
            f.timestamp == self.timestamp,
    {
        FormattedTime { timestamp: self.timestamp }
    }
}

/// A date and time ready to be written.
#[derive(Debug, Clone, Copy, PartialEq, Eq, Structural)]
pub struct FormattedTime {
    pub timestamp: i64,
}

impl FormattedTime {
    /// The time as `YYYY-MM-DD HH:MM:SS`, in UTC.
    pub fn to_string(&self) -> (s: String)
        ensures
            s@ == rendered(self.timestamp as int),
    {
        let secs = self.timestamp;
        let (days, rem_secs) = trunc_divrem(secs, 86400);
        let (hours, in_hour) = trunc_divrem(rem_secs, 3600);
        let (minutes, _) = trunc_divrem(in_hour, 60);
        let (_, seconds) = trunc_divrem(rem_secs, 60);
        let mut year: i64 = 1970;
        let mut remaining_days = days;
        loop
            invariant
                year >= 1970,
                year <= 1970 + (if days >= 0 { days } else { 0 }),
                remaining_days <= days,
                days >= 0 ==> remaining_days >= 0,
                days >= 0 ==> remaining_days + (year - 1970) * 365 <= days,
                year_walk(days as int, 1970) == year_walk(remaining_days as int, year as int),
            ensures
                remaining_days < 366,
                year_walk(days as int, 1970) == (year as int, remaining_days as int),
            decreases remaining_days,
        {
            let days_in_year: i64 = if is_leap_year(year) {
                366
            } else {
                365
            };
            if remaining_days < days_in_year {
                break;
            }
            remaining_days = remaining_days - days_in_year;
            year = year + 1;
        }
        let (month, day) = day_to_month_day(remaining_days, is_leap_year(year));
        let mut s = pad(year, 4);
        push_char(&mut s, '-');
        s.append(pad(month as i64, 2).as_str());
        push_char(&mut s, '-');
        s.append(pad(day as i64, 2).as_str());
        push_char(&mut s, ' ');
        s.append(pad(hours, 2).as_str());
        push_char(&mut s, ':');
        s.append(pad(minutes, 2).as_str());
        push_char(&mut s, ':');
        s.append(pad(seconds, 2).as_str());
        proof {
            assert(clock_fields(secs as int) == (
                year as int,
                month as int,
                day as int,
                hours as int,
                minutes as int,
                seconds as int,
            ));
            assert(s@ =~= rendered(self.timestamp as int));
        }
        s
    }
}

/// The init system's log on standard error.
pub struct Logger;

impl Logger {
    /// Nothing to set up: lines are written to standard error as they come.
    pub fn init() {
    }

    /// The time stamp of a log line written at `now` seconds after the epoch.
    pub fn timestamp(now: u64) -> (s: String)
        ensures
            s@ == rendered((now as i64) as int),
    {
        let naive = match NaiveDateTime::from_timestamp_opt(now as i64, 0) {
            Some(t) => t,
            None => NaiveDateTime::default(),
        };
        naive.format("%Y-%m-%d %H:%M:%S").to_string()
    }

    /// A line of the init system's log: `[<time>] [<level>] <message>`.
    pub fn line(timestamp: &str, level: &str, msg: &str) -> (s: String)
        ensures
            s@ == seq!['['] + timestamp@ + "] ["@ + level@ + "] "@ + msg@,
    {
        let mut s = String::new();
        push_char(&mut s, '[');
        s.append(timestamp);
        s.append("] [");
        s.append(level);
        s.append("] ");
        s.append(msg);
        s
    }
}

/// A line of a service's log: `[<time>] <message>`.
pub fn service_log_line(timestamp: &str, msg: &str) -> (s: String)
    ensures
        s@ == seq!['['] + timestamp@ + "] "@ + msg@,
{
    let mut s = String::new();
    push_char(&mut s, '[');
    s.append(timestamp);
    s.append("] ");
    s.append(msg);
    s
}

} // verus!
