//! Calendar dates and the date arithmetic behind time specifications,
//! done by chrono.

use vstd::prelude::*;

use chrono::Datelike;

verus! {

/// The earliest year chrono's `NaiveDate` represents.
pub open spec fn min_year() -> int {
    -262143
}

/// The latest year chrono's `NaiveDate` represents.
pub open spec fn max_year() -> int {
    262142
}

/// A calendar date (proleptic Gregorian), as year, month (1-12) and day.
#[derive(Debug, Clone, Copy, PartialEq, Eq, Structural)]
pub struct Date {
    pub year: i32,
    pub month: u32,
    pub day: u32,
}

/// Whether `y` is a leap year in the proleptic Gregorian calendar.
pub open spec fn is_leap(y: int) -> bool {
    (y % 4 == 0 && y % 100 != 0) || y % 400 == 0
}

/// The number of days in month `m` of year `y`.
pub open spec fn days_in_month(y: int, m: int) -> int {
    if m == 2 {
        if is_leap(y) { 29 } else { 28 }
    } else if m == 4 || m == 6 || m == 9 || m == 11 {
        30
    } else {
        31
    }
}

/// Whether (y, m, d) is a date chrono can represent.
pub open spec fn valid_ymd(y: int, m: int, d: int) -> bool {
    &&& min_year() <= y <= max_year()
    &&& 1 <= m <= 12
    &&& 1 <= d <= days_in_month(y, m)
}

impl Date {
    /// Whether this is a date chrono can represent.
    pub open spec fn valid(self) -> bool {
        valid_ymd(self.year as int, self.month as int, self.day as int)
    }
}

/// Whether `a` comes before `b`.
pub open spec fn date_before(a: Date, b: Date) -> bool {
    a.year < b.year || (a.year == b.year && (a.month < b.month || (a.month == b.month && a.day
        < b.day)))
}

/// Whether `a` comes before `b`.
pub fn is_before(a: Date, b: Date) -> (r: bool)
    ensures
        r == date_before(a, b),
{
    a.year < b.year || (a.year == b.year && (a.month < b.month || (a.month == b.month && a.day
        < b.day)))
}

/// `NaiveDate::from_ymd_opt`: the date (y, m, d) when it exists in chrono's
/// range. Its documentation and source make it `Some` exactly for a real
/// calendar day (month 1-12, day within the month, leap years Gregorian) in
/// the years chrono represents.
#[verifier::external_body]
pub(crate) fn from_ymd(year: i32, month: u32, day: u32) -> (r: Option<Date>)
    ensures
        valid_ymd(year as int, month as int, day as int) ==> r == Some(
            Date { year, month, day },
        ),
        !valid_ymd(year as int, month as int, day as int) ==> r is None,
{
    match chrono::NaiveDate::from_ymd_opt(year, month, day) {
        Some(d) => Some(Date { year: d.year(), month: d.month(), day: d.day() }),
        None => None,
    }
}

/// `Local::now().date_naive()`: today's date in the machine's time zone.
/// Only validity is stated; which day it is depends on the clock.
#[verifier::external_body]
pub(crate) fn today() -> (r: Date)
    ensures
        r.valid(),
{
    let d = chrono::Local::now().date_naive();
    Date { year: d.year(), month: d.month(), day: d.day() }
}

/// The number of leap years from year 0 up to, not including, year `y`
/// (negative for years before 0).
pub open spec fn leaps_before(y: int) -> int {
    (y + 3) / 4 - (y + 99) / 100 + (y + 399) / 400
}

/// The number of days in year `y` before the first of month `m`.
pub open spec fn days_before_month(y: int, m: int) -> int {
    let base: int = if m == 1 { 0 }
    else if m == 2 { 31 }
    else if m == 3 { 59 }
    else if m == 4 { 90 }
    else if m == 5 { 120 }
    else if m == 6 { 151 }
    else if m == 7 { 181 }
    else if m == 8 { 212 }
    else if m == 9 { 243 }
    else if m == 10 { 273 }
    else if m == 11 { 304 }
    else { 334 };
    if m > 2 && is_leap(y) { base + 1 } else { base }
}

/// The day number of a date: the count of days since 0000-01-01 in the
/// proleptic Gregorian calendar (negative before it).
pub open spec fn day_number(d: Date) -> int {
    365 * d.year + leaps_before(d.year as int) + days_before_month(d.year as int, d.month as int)
        + d.day - 1
}

/// Whether day number `k` falls in the range of dates chrono represents,
/// from 1 January of the first year to 31 December of the last.
pub open spec fn day_in_range(k: int) -> bool {
    day_number(Date { year: -262143i32, month: 1u32, day: 1u32 }) <= k && k <= day_number(
        Date { year: 262142i32, month: 12u32, day: 31u32 },
    )
}

proof fn lemma_div_step(x: int, k: int)
    requires
        k > 0,
    ensures
        (x + 1) / k - x / k == (if (x + 1) % k == 0 { 1int } else { 0int }),
{
    vstd::arithmetic::div_mod::lemma_fundamental_div_mod(x, k);
    vstd::arithmetic::div_mod::lemma_fundamental_div_mod(x + 1, k);
    let q0 = x / k;
    let q1 = (x + 1) / k;
    let r0 = x % k;
    let r1 = (x + 1) % k;
    assert(0 <= r0 < k && 0 <= r1 < k);
    assert(k * (q1 - q0) == 1 + r0 - r1) by (nonlinear_arith)
        requires
            x == k * q0 + r0,
            x + 1 == k * q1 + r1,
    ;
    if q1 - q0 >= 2 {
        assert(k * (q1 - q0) >= k * 2) by (nonlinear_arith)
            requires
                q1 - q0 >= 2,
                k > 0,
        ;
    } else if q1 - q0 <= -1 {
        assert(k * (q1 - q0) <= -k) by (nonlinear_arith)
            requires
                q1 - q0 <= -1,
                k > 0,
        ;
    }
    if q1 - q0 == 1 {
        assert(k * (q1 - q0) == k) by (nonlinear_arith)
            requires
                q1 - q0 == 1,
        ;
    } else {
        assert(q1 - q0 == 0);
        assert(k * (q1 - q0) == 0) by (nonlinear_arith)
            requires
                q1 - q0 == 0,
        ;
    }
}

proof fn lemma_shift_mod(y: int, k: int, c: int)
    requires
        k > 0,
    ensures
        (y + c * k) % k == y % k,
{
    vstd::arithmetic::div_mod::lemma_mod_multiples_vanish(c, y, k);
    assert(c * k == k * c) by (nonlinear_arith);
}

/// The first day of year `y + 1` comes 365 days, or 366 in a leap year,
/// after the first day of year `y`.
proof fn lemma_year_step(y: int)
    ensures
        365 * (y + 1) + leaps_before(y + 1) == 365 * y + leaps_before(y) + 365 + (if is_leap(y) {
            1int
        } else {
            0int
        }),
{
    lemma_div_step(y + 3, 4);
    lemma_div_step(y + 99, 100);
    lemma_div_step(y + 399, 400);
    lemma_shift_mod(y, 4, 1);
    lemma_shift_mod(y, 100, 1);
    lemma_shift_mod(y, 400, 1);
    assert(y + 3 + 1 == y + 1 * 4);
    assert(y + 99 + 1 == y + 1 * 100);
    assert(y + 399 + 1 == y + 1 * 400);
    if y % 400 == 0 {
        vstd::arithmetic::div_mod::lemma_fundamental_div_mod(y, 400);
        assert(y == 400 * (y / 400));
        assert(y == 100 * (4 * (y / 400))) by (nonlinear_arith)
            requires
                y == 400 * (y / 400),
        ;
        vstd::arithmetic::div_mod::lemma_mod_multiples_basic(4 * (y / 400), 100);
        assert(y == 4 * (100 * (y / 400))) by (nonlinear_arith)
            requires
                y == 400 * (y / 400),
        ;
        vstd::arithmetic::div_mod::lemma_mod_multiples_basic(100 * (y / 400), 4);
    } else if y % 100 == 0 {
        vstd::arithmetic::div_mod::lemma_fundamental_div_mod(y, 100);
        assert(y == 4 * (25 * (y / 100))) by (nonlinear_arith)
            requires
                y == 100 * (y / 100),
        ;
        vstd::arithmetic::div_mod::lemma_mod_multiples_basic(25 * (y / 100), 4);
    }
}

/// The first day of a later year comes at least a whole year after the
/// first day of an earlier one.
proof fn lemma_year_start_grows(y1: int, y2: int)
    requires
        y1 < y2,
    ensures
        365 * y1 + leaps_before(y1) + 365 + (if is_leap(y1) { 1int } else { 0int }) <= 365 * y2
            + leaps_before(y2),
    decreases y2 - y1,
{
    lemma_year_step(y1);
    if y1 + 1 < y2 {
        lemma_year_start_grows(y1 + 1, y2);
    }
}

/// The days of a month come after the days of the months before it.
proof fn lemma_month_span(y: int, m1: int, m2: int)
    requires
        1 <= m1 < m2 <= 12,
    ensures
        days_before_month(y, m1) + days_in_month(y, m1) <= days_before_month(y, m2),
{
}

/// Day numbers order valid dates as the calendar does, and tell them apart.
pub proof fn lemma_day_number_order(a: Date, b: Date)
    requires
        a.valid(),
        b.valid(),
    ensures
        date_before(a, b) <==> day_number(a) < day_number(b),
        a == b <==> day_number(a) == day_number(b),
{
    let ya = a.year as int;
    let yb = b.year as int;
    let la = if is_leap(ya) { 1int } else { 0int };
    let lb = if is_leap(yb) { 1int } else { 0int };
    assert(days_before_month(ya, a.month as int) + a.day - 1 < 365 + la) by {
        if a.month < 12 {
            lemma_month_span(ya, a.month as int, 12);
        }
    }
    assert(days_before_month(yb, b.month as int) + b.day - 1 < 365 + lb) by {
        if b.month < 12 {
            lemma_month_span(yb, b.month as int, 12);
        }
    }
    if ya < yb {
        lemma_year_start_grows(ya, yb);
    } else if yb < ya {
        lemma_year_start_grows(yb, ya);
    } else if a.month < b.month {
        lemma_month_span(ya, a.month as int, b.month as int);
    } else if b.month < a.month {
        lemma_month_span(ya, b.month as int, a.month as int);
    }
}

/// The valid date whose day number is `k` (when `k` is in range).
pub open spec fn date_with_number(k: int) -> Date {
    choose|e: Date| e.valid() && day_number(e) == k
}

/// A valid date is the date of its own day number.
pub proof fn lemma_date_with_number(x: Date)
    requires
        x.valid(),
    ensures
        date_with_number(day_number(x)) == x,
{
    let e = date_with_number(day_number(x));
    assert(e.valid() && day_number(e) == day_number(x));
    lemma_day_number_order(e, x);
}

/// The date `n` days after day number `k`, or `None` outside chrono's range.
pub open spec fn shifted(k: int, n: int) -> Option<Date> {
    if day_in_range(k + n) {
        Some(date_with_number(k + n))
    } else {
        None
    }
}

/// `date - TimeDelta::days(n)`: the date `n` days earlier, or `None` where
/// chrono panics (the delta or the resulting date is out of range).
pub open spec fn days_before(d: Date, n: i64) -> Option<Date> {
    shifted(day_number(d), -n)
}

/// `date - TimeDelta::weeks(n)`: the date `7 * n` days earlier, or `None`
/// where chrono panics.
pub open spec fn weeks_before(d: Date, n: i64) -> Option<Date> {
    shifted(day_number(d), -7 * n)
}

/// Where a day-shifting operation gives a valid date with the expected day
/// number exactly when that day number is in range, it gives `shifted`.
pub proof fn lemma_shift_result(k: int, n: int, r: Option<Date>)
    requires
        r is Some <==> day_in_range(k + n),
        r matches Some(x) ==> x.valid() && day_number(x) == k + n,
    ensures
        r == shifted(k, n),
{
    if let Some(x) = r {
        lemma_date_with_number(x);
    }
}

/// `date.checked_sub_months(Months::new(n))`: the month count goes back by
/// `n`, the day is clamped to the length of the month reached, and the
/// result is `None` where the year leaves chrono's range.
pub open spec fn months_before(d: Date, n: u32) -> Option<Date> {
    let t = d.year * 12 + d.month - 1 - n;
    let y = t / 12;
    let m = t % 12 + 1;
    let day = if d.day <= days_in_month(y, m) { d.day as int } else { days_in_month(y, m) };
    if min_year() <= y && y <= max_year() {
        Some(Date { year: y as i32, month: m as u32, day: day as u32 })
    } else {
        None
    }
}

/// `date.checked_add_signed(TimeDelta::days(n))`: the date `n` days
/// later, or `None` where chrono panics.
pub open spec fn days_after(d: Date, n: i64) -> Option<Date> {
    shifted(day_number(d), n as int)
}

/// `(a - b).num_days()`: the signed number of days from `b` to `a`.
pub open spec fn days_between(a: Date, b: Date) -> i64 {
    (day_number(a) - day_number(b)) as i64
}

/// What `NaiveDate::parse_from_str(s, "%Y-%m-%d")` parses `s` to.
pub uninterp spec fn parsed_ymd(s: Seq<char>) -> Option<Date>;

/// The decimal digit for `v` (0..=9).
pub open spec fn digit_char(v: int) -> char {
    (v + 48) as char
}

/// The decimal digits of `n`, padded with leading zeros to at least `w`
/// digits.
pub open spec fn padded(n: nat, w: nat) -> Seq<char>
    decreases n + w,
{
    if n == 0 && w == 0 {
        seq![]
    } else {
        padded(n / 10, if w > 0 { (w - 1) as nat } else { 0 }).push(digit_char(n as int % 10))
    }
}

/// How chrono writes a year: four digits, zero-padded, for years 0 to
/// 9999; otherwise a sign and at least four digits.
pub open spec fn year_text(y: int) -> Seq<char> {
    if 0 <= y && y <= 9999 {
        padded(y as nat, 4)
    } else if y < 0 {
        seq!['-'] + padded((-y) as nat, 4)
    } else {
        seq!['+'] + padded(y as nat, 4)
    }
}

/// A date written `YYYY-MM-DD`, as chrono's `%Y-%m-%d` format and its
/// `Display` for dates write it.
pub open spec fn date_text(d: Date) -> Seq<char> {
    year_text(d.year as int) + seq!['-'] + padded(d.month as nat, 2) + seq!['-'] + padded(
        d.day as nat,
        2,
    )
}

/// `date - TimeDelta::days(n)` through `TimeDelta::try_days` and
/// `NaiveDate::checked_sub_signed`: `None` exactly where the panicking
/// operators would panic, which is where the day `n` days earlier is out of
/// chrono's range; otherwise that day.
#[verifier::external_body]
pub(crate) fn sub_days(d: Date, n: i64) -> (r: Option<Date>)
    requires
        d.valid(),
    ensures
        r is Some <==> day_in_range(day_number(d) - n),
        r matches Some(x) ==> x.valid() && day_number(x) == day_number(d) - n,
{
    let nd = chrono::NaiveDate::from_ymd_opt(d.year, d.month, d.day).unwrap();
    let delta = match chrono::TimeDelta::try_days(n) {
        Some(t) => t,
        None => return None,
    };
    match nd.checked_sub_signed(delta) {
        Some(x) => Some(Date { year: x.year(), month: x.month(), day: x.day() }),
        None => None,
    }
}

/// `date - TimeDelta::weeks(n)` through `TimeDelta::try_weeks` and
/// `NaiveDate::checked_sub_signed`: `None` where the day `7 * n` days
/// earlier is out of chrono's range; otherwise that day.
#[verifier::external_body]
pub(crate) fn sub_weeks(d: Date, n: i64) -> (r: Option<Date>)
    requires
        d.valid(),
    ensures
        r is Some <==> day_in_range(day_number(d) - 7 * n),
        r matches Some(x) ==> x.valid() && day_number(x) == day_number(d) - 7 * n,
{
    let nd = chrono::NaiveDate::from_ymd_opt(d.year, d.month, d.day).unwrap();
    let delta = match chrono::TimeDelta::try_weeks(n) {
        Some(t) => t,
        None => return None,
    };
    match nd.checked_sub_signed(delta) {
        Some(x) => Some(Date { year: x.year(), month: x.month(), day: x.day() }),
        None => None,
    }
}

/// `NaiveDate::checked_sub_months`: `date - Months::new(n)` where it does
/// not panic, as `months_before` spells out.
#[verifier::external_body]
pub(crate) fn sub_months(d: Date, n: u32) -> (r: Option<Date>)
    requires
        d.valid(),
    ensures
        r == months_before(d, n),
        r matches Some(x) ==> x.valid(),
{
    let nd = chrono::NaiveDate::from_ymd_opt(d.year, d.month, d.day).unwrap();
    match nd.checked_sub_months(chrono::Months::new(n)) {
        Some(x) => Some(Date { year: x.year(), month: x.month(), day: x.day() }),
        None => None,
    }
}

/// `date + TimeDelta::days(n)` through `TimeDelta::try_days` and
/// `NaiveDate::checked_add_signed`: `None` where the day `n` days later is
/// out of chrono's range; otherwise that day, which for positive `n` comes
/// later.
#[verifier::external_body]
pub(crate) fn add_days(d: Date, n: i64) -> (r: Option<Date>)
    requires
        d.valid(),
    ensures
        r is Some <==> day_in_range(day_number(d) + n),
        r matches Some(x) ==> x.valid() && day_number(x) == day_number(d) + n,
        r matches Some(x) ==> (n > 0 ==> date_before(d, x)),
{
    let nd = chrono::NaiveDate::from_ymd_opt(d.year, d.month, d.day).unwrap();
    let delta = match chrono::TimeDelta::try_days(n) {
        Some(t) => t,
        None => return None,
    };
    match nd.checked_add_signed(delta) {
        Some(x) => Some(Date { year: x.year(), month: x.month(), day: x.day() }),
        None => None,
    }
}

/// `(a - b).num_days()` (`NaiveDate::signed_duration_since`), which never
/// overflows: the signed number of days from `b` to `a`.
#[verifier::external_body]
pub(crate) fn days_from(a: Date, b: Date) -> (r: i64)
    requires
        a.valid(),
        b.valid(),
    ensures
        r == days_between(a, b),
        r == day_number(a) - day_number(b),
{
    let na = chrono::NaiveDate::from_ymd_opt(a.year, a.month, a.day).unwrap();
    let nb = chrono::NaiveDate::from_ymd_opt(b.year, b.month, b.day).unwrap();
    na.signed_duration_since(nb).num_days()
}

/// `NaiveDate::parse_from_str(s, "%Y-%m-%d")`. The result is named; a date
/// it gives is valid.
#[verifier::external_body]
pub(crate) fn parse_ymd(s: &str) -> (r: Option<Date>)
    ensures
        r == parsed_ymd(s@),
        r matches Some(x) ==> x.valid(),
{
    match chrono::NaiveDate::parse_from_str(s, "%Y-%m-%d") {
        Ok(x) => Some(Date { year: x.year(), month: x.month(), day: x.day() }),
        Err(_) => None,
    }
}

/// `date.format("%Y-%m-%d").to_string()`: the date as `date_text` writes it.
#[verifier::external_body]
pub(crate) fn format_ymd(d: Date) -> (r: String)
    requires
        d.valid(),
    ensures
        r@ == date_text(d),
{
    chrono::NaiveDate::from_ymd_opt(d.year, d.month, d.day).unwrap().format("%Y-%m-%d").to_string()
}

} // verus!
