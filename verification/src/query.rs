//! The shorthand query language: `wit tokyo`, `wit tokyo 7d`,
//! `wit tokyo..boston`, `wit tokyo jan..jul`, and the time tokens it uses.

use vstd::prelude::*;

use crate::date::{
    day_in_range, day_number, days_before, from_ymd, lemma_shift_result, months_before, sub_days, sub_months, sub_weeks, today, valid_ymd,
    weeks_before, Date,
};
use crate::error::{ErrorView, WitError};
use crate::text::{
    ascii_lower, chars_eq, chars_of, copy_chars, find_dotdot, first_dotdot, is_literal, is_ws, join, join_with,
    lower_ascii, lower_text, parse_i32, parse_i64, parse_int_in, push_all, split_whitespace,
    string_of, to_lowercase, views, ws_split,
};

verus! {

/// A relative or calendar time specification.
#[derive(Debug, Clone, Copy, PartialEq, Eq, Structural)]
pub enum TimeSpec {
    DaysAgo(i64),
    WeeksAgo(i64),
    MonthsAgo(i64),
    YearsAgo(i64),
    Month(u32),
    Year(i32),
}

/// Parsed result of a shorthand query.
#[derive(Debug, PartialEq, Eq)]
pub enum Query {
    /// Show current weather for a location (live fetch)
    Current { location: String },
    /// Compare a location now vs a point in the past
    TimeDiff { location: String, past: TimeSpec },
    /// Compare a location at two points in time
    TimeRange { location: String, from: TimeSpec, to: TimeSpec },
    /// Compare two locations right now
    LocationDiff { left: String, right: String },
    /// Compare two locations at a time in the past
    LocationDiffAt { left: String, right: String, time: TimeSpec },
}

/// The model of a `Query`: the same variants over character sequences.
pub enum QueryView {
    Current { location: Seq<char> },
    TimeDiff { location: Seq<char>, past: TimeSpec },
    TimeRange { location: Seq<char>, from: TimeSpec, to: TimeSpec },
    LocationDiff { left: Seq<char>, right: Seq<char> },
    LocationDiffAt { left: Seq<char>, right: Seq<char>, time: TimeSpec },
}

impl View for Query {
    type V = QueryView;

    open spec fn view(&self) -> QueryView {
        match self {
            Query::Current { location } => QueryView::Current { location: location@ },
            Query::TimeDiff { location, past } => QueryView::TimeDiff {
                location: location@,
                past: *past,
            },
            Query::TimeRange { location, from, to } => QueryView::TimeRange {
                location: location@,
                from: *from,
                to: *to,
            },
            Query::LocationDiff { left, right } => QueryView::LocationDiff {
                left: left@,
                right: right@,
            },
            Query::LocationDiffAt { left, right, time } => QueryView::LocationDiffAt {
                left: left@,
                right: right@,
                time: *time,
            },
        }
    }
}

/// The date a time specification denotes on the day `today`, or `None`
/// where the date arithmetic panics (its result or an intermediate value is
/// out of range): a number of days, weeks, months or years back (the
/// counts of months and years truncated to 32 bits, twelve months a year),
/// the 15th of a month of this year, or today's day in another year (the
/// 28th when that day does not exist there).
pub open spec fn resolved(t: TimeSpec, today: Date) -> Option<Date> {
    match t {
        TimeSpec::DaysAgo(d) => days_before(today, d),
        TimeSpec::WeeksAgo(w) => weeks_before(today, w),
        TimeSpec::MonthsAgo(m) => months_before(today, m as u32),
        TimeSpec::YearsAgo(y) => if (y as u32) * 12 <= u32::MAX {
            months_before(today, ((y as u32) * 12) as u32)
        } else {
            None
        },
        TimeSpec::Month(m) => Some(
            if valid_ymd(today.year as int, m as int, 15) {
                Date { year: today.year, month: m, day: 15 }
            } else {
                today
            },
        ),
        TimeSpec::Year(y) => Some(
            if valid_ymd(y as int, today.month as int, today.day as int) {
                Date { year: y, month: today.month, day: today.day }
            } else if valid_ymd(y as int, today.month as int, 28) {
                Date { year: y, month: today.month, day: 28 }
            } else {
                today
            },
        ),
    }
}

impl TimeSpec {
    /// The date this specification denotes on the day `today`; `None` where
    /// the date arithmetic would overflow.
    pub fn resolve_on(&self, today: Date) -> (r: Option<Date>)
        requires
            today.valid(),
        ensures
            r == resolved(*self, today),
            r matches Some(d) ==> d.valid(),
            *self matches TimeSpec::DaysAgo(n) ==> (r is Some <==> day_in_range(day_number(today) - n))
                && (r matches Some(d) ==> day_number(d) == day_number(today) - n),
            *self matches TimeSpec::WeeksAgo(n) ==> (r is Some <==> day_in_range(day_number(today) - 7 * n))
                && (r matches Some(d) ==> day_number(d) == day_number(today) - 7 * n),
    {
        match *self {
            TimeSpec::DaysAgo(d) => {
                let r = sub_days(today, d);
                proof {
                    lemma_shift_result(day_number(today), -d, r);
                }
                r
            },
            TimeSpec::WeeksAgo(w) => {
                let r = sub_weeks(today, w);
                proof {
                    lemma_shift_result(day_number(today), -7 * w, r);
                }
                r
            },
            TimeSpec::MonthsAgo(m) => sub_months(today, m as u32),
            TimeSpec::YearsAgo(y) => {
                let yy = y as u32;
                if yy <= u32::MAX / 12 {
                    sub_months(today, yy * 12)
                } else {
                    None
                }
            },
            TimeSpec::Month(m) => match from_ymd(today.year, m, 15) {
                Some(d) => Some(d),
                None => Some(today),
            },
            TimeSpec::Year(y) => match from_ymd(y, today.month, today.day) {
                Some(d) => Some(d),
                None => match from_ymd(y, today.month, 28) {
                    Some(d) => Some(d),
                    None => Some(today),
                },
            },
        }
    }

    /// The date this specification denotes today (by the local clock);
    /// `None` where the date arithmetic would overflow.
    pub fn resolve(&self) -> (r: Option<Date>)
        ensures
            exists|t: Date| t.valid() && r == resolved(*self, t),
    {
        let t = today();
        self.resolve_on(t)
    }
}

// ---------------------------------------------------------------------------
// Time tokens
// ---------------------------------------------------------------------------

/// The three-letter month abbreviations, `jan` to `dec`.
pub open spec fn short_month_name(i: int) -> Seq<char> {
    if i == 0 { "jan"@ }
    else if i == 1 { "feb"@ }
    else if i == 2 { "mar"@ }
    else if i == 3 { "apr"@ }
    else if i == 4 { "may"@ }
    else if i == 5 { "jun"@ }
    else if i == 6 { "jul"@ }
    else if i == 7 { "aug"@ }
    else if i == 8 { "sep"@ }
    else if i == 9 { "oct"@ }
    else if i == 10 { "nov"@ }
    else { "dec"@ }
}

/// The full month names, `january` to `december`.
pub open spec fn full_month_name(i: int) -> Seq<char> {
    if i == 0 { "january"@ }
    else if i == 1 { "february"@ }
    else if i == 2 { "march"@ }
    else if i == 3 { "april"@ }
    else if i == 4 { "may"@ }
    else if i == 5 { "june"@ }
    else if i == 6 { "july"@ }
    else if i == 7 { "august"@ }
    else if i == 8 { "september"@ }
    else if i == 9 { "october"@ }
    else if i == 10 { "november"@ }
    else { "december"@ }
}

/// The endings that may follow a three-letter month abbreviation.
pub open spec fn month_suffix(k: int) -> Seq<char> {
    if k == 0 { "uary"@ }
    else if k == 1 { "ruary"@ }
    else if k == 2 { "ch"@ }
    else if k == 3 { "il"@ }
    else if k == 4 { "e"@ }
    else if k == 5 { "y"@ }
    else if k == 6 { "ust"@ }
    else if k == 7 { "tember"@ }
    else if k == 8 { "ober"@ }
    else { "ember"@ }
}

/// Whether `l` is `name` followed by one of the month endings numbered `k` or later.
pub open spec fn suffixed_from(l: Seq<char>, name: Seq<char>, k: int) -> bool
    decreases 10 - k,
{
    if k < 0 || k >= 10 {
        false
    } else {
        l == name + month_suffix(k) || suffixed_from(l, name, k + 1)
    }
}

/// Whether `l` names a month through the abbreviation `name`: the
/// abbreviation itself or the abbreviation followed by a month ending.
pub open spec fn month_form(l: Seq<char>, name: Seq<char>) -> bool {
    l == name || suffixed_from(l, name, 0)
}

/// The first month, from index `i` on, whose abbreviation `l` is a form of.
pub open spec fn short_month_from(l: Seq<char>, i: int) -> Option<int>
    decreases 12 - i,
{
    if i < 0 || i >= 12 {
        None
    } else if month_form(l, short_month_name(i)) {
        Some(i)
    } else {
        short_month_from(l, i + 1)
    }
}

/// The first month, from index `i` on, whose full name is `l`.
pub open spec fn full_month_from(l: Seq<char>, i: int) -> Option<int>
    decreases 12 - i,
{
    if i < 0 || i >= 12 {
        None
    } else if l == full_month_name(i) {
        Some(i)
    } else {
        full_month_from(l, i + 1)
    }
}

/// The month index (0 for January) that the lowercase token `l` names.
pub open spec fn month_of(l: Seq<char>) -> Option<int> {
    match short_month_from(l, 0) {
        Some(i) => Some(i),
        None => full_month_from(l, 0),
    }
}

/// `s.parse::<i64>()`.
pub open spec fn parse64(s: Seq<char>) -> Option<int> {
    parse_int_in(s, i64::MIN as int, i64::MAX as int)
}

/// Whether `l` ends with the character `c`.
pub open spec fn ends_with_char(l: Seq<char>, c: char) -> bool {
    l.len() >= 1 && l.last() == c
}

/// Whether `l` ends with "yr".
pub open spec fn ends_with_yr(l: Seq<char>) -> bool {
    l.len() >= 2 && l[l.len() - 2] == 'y' && l.last() == 'r'
}

/// The year 1900..=2100 that `l` parses to as an `i32`, if any.
pub open spec fn year_value(l: Seq<char>) -> Option<int> {
    match parse_int_in(l, i32::MIN as int, i32::MAX as int) {
        Some(y) => if 1900 <= y && y <= 2100 { Some(y) } else { None },
        None => None,
    }
}

/// The time that an already-lowercased token denotes, if any.
pub open spec fn time_of_lower(l: Seq<char>) -> Option<TimeSpec> {
    if l == "yesterday"@ {
        Some(TimeSpec::DaysAgo(1))
    } else if l == "last-week"@ || l == "lastweek"@ {
        Some(TimeSpec::DaysAgo(7))
    } else if l == "last-month"@ || l == "lastmonth"@ {
        Some(TimeSpec::MonthsAgo(1))
    } else if month_of(l) is Some {
        Some(TimeSpec::Month((month_of(l).unwrap() + 1) as u32))
    } else if ends_with_char(l, 'd') && parse64(l.drop_last()) is Some {
        Some(TimeSpec::DaysAgo(parse64(l.drop_last()).unwrap() as i64))
    } else if ends_with_char(l, 'w') && parse64(l.drop_last()) is Some {
        Some(TimeSpec::WeeksAgo(parse64(l.drop_last()).unwrap() as i64))
    } else if ends_with_char(l, 'm') && parse64(l.drop_last()) is Some {
        Some(TimeSpec::MonthsAgo(parse64(l.drop_last()).unwrap() as i64))
    } else if ends_with_yr(l) && parse64(l.take(l.len() - 2)) is Some {
        Some(TimeSpec::YearsAgo(parse64(l.take(l.len() - 2)).unwrap() as i64))
    } else if ends_with_char(l, 'y') && parse64(l.drop_last()) is Some {
        Some(TimeSpec::YearsAgo(parse64(l.drop_last()).unwrap() as i64))
    } else if l.len() == 4 && year_value(l) is Some {
        Some(TimeSpec::Year(year_value(l).unwrap() as i32))
    } else {
        None
    }
}

/// What `parse_time_token` gives for the token `s`.
pub open spec fn time_token(s: Seq<char>) -> Result<TimeSpec, ErrorView> {
    match time_of_lower(lower_text(s)) {
        Some(t) => Ok(t),
        None => Err(ErrorView::InvalidTime(s)),
    }
}

fn short_month(i: usize) -> (r: &'static str)
    requires
        i < 12,
    ensures
        r@ == short_month_name(i as int),
{
    match i {
        0 => "jan",
        1 => "feb",
        2 => "mar",
        3 => "apr",
        4 => "may",
        5 => "jun",
        6 => "jul",
        7 => "aug",
        8 => "sep",
        9 => "oct",
        10 => "nov",
        _ => "dec",
    }
}

fn full_month(i: usize) -> (r: &'static str)
    requires
        i < 12,
    ensures
        r@ == full_month_name(i as int),
{
    match i {
        0 => "january",
        1 => "february",
        2 => "march",
        3 => "april",
        4 => "may",
        5 => "june",
        6 => "july",
        7 => "august",
        8 => "september",
        9 => "october",
        10 => "november",
        _ => "december",
    }
}

fn suffix(k: usize) -> (r: &'static str)
    requires
        k < 10,
    ensures
        r@ == month_suffix(k as int),
{
    match k {
        0 => "uary",
        1 => "ruary",
        2 => "ch",
        3 => "il",
        4 => "e",
        5 => "y",
        6 => "ust",
        7 => "tember",
        8 => "ober",
        _ => "ember",
    }
}


fn is_month_form(l: &[char], name: &str) -> (r: bool)
    ensures
        r == month_form(l@, name@),
{
    let n = chars_of(name);
    if chars_eq(l, n.as_slice()) {
        return true;
    }
    let mut k: usize = 0;
    while k < 10
        invariant
            k <= 10,
            l@ != name@,
            n@ == name@,
            suffixed_from(l@, name@, 0) == suffixed_from(l@, name@, k as int),
        decreases 10 - k,
    {
        let mut w = copy_chars(n.as_slice());
        let sfx = chars_of(suffix(k));
        push_all(&mut w, sfx.as_slice());
        assert(n@ == name@);
        assert(sfx@ == month_suffix(k as int));
        assert(w@ == name@ + month_suffix(k as int));
        assert(suffixed_from(l@, name@, k as int) == (l@ == name@ + month_suffix(k as int)
            || suffixed_from(l@, name@, k + 1)));
        if chars_eq(l, w.as_slice()) {
            return true;
        }
        k = k + 1;
    }
    false
}

proof fn lemma_month_range(l: Seq<char>, i: int)
    ensures
        short_month_from(l, i) matches Some(j) ==> 0 <= j < 12,
        full_month_from(l, i) matches Some(j) ==> 0 <= j < 12,
    decreases 12 - i,
{
    if 0 <= i < 12 {
        lemma_month_range(l, i + 1);
    }
}

/// The month index that `l` names is always below 12.
pub proof fn lemma_month_of_range(l: Seq<char>)
    ensures
        month_of(l) matches Some(j) ==> 0 <= j < 12,
{
    lemma_month_range(l, 0);
}

fn month_index(l: &[char]) -> (r: Option<u32>)
    ensures
        r matches Some(i) ==> i < 12,
        match month_of(l@) {
            Some(i) => r == Some(i as u32),
            None => r is None,
        },
{
    proof {
        lemma_month_of_range(l@);
    }
    let mut i: usize = 0;
    while i < 12
        invariant
            i <= 12,
            short_month_from(l@, 0) == short_month_from(l@, i as int),
        decreases 12 - i,
    {
        if is_month_form(l, short_month(i)) {
            return Some(i as u32);
        }
        i = i + 1;
    }
    let mut j: usize = 0;
    while j < 12
        invariant
            j <= 12,
            short_month_from(l@, 0) is None,
            full_month_from(l@, 0) == full_month_from(l@, j as int),
        decreases 12 - j,
    {
        if is_literal(l, full_month(j)) {
            return Some(j as u32);
        }
        j = j + 1;
    }
    None
}

/// The first `n` characters of `l`.
fn prefix(l: &[char], n: usize) -> (r: Vec<char>)
    requires
        n <= l.len(),
    ensures
        r@ == l@.take(n as int),
{
    let mut r: Vec<char> = Vec::new();
    let mut i: usize = 0;
    while i < n
        invariant
            i <= n <= l.len(),
            r@ == l@.take(i as int),
        decreases n - i,
    {
        r.push(l[i]);
        i = i + 1;
        assert(r@ =~= l@.take(i as int));
    }
    r
}

/// `s.parse::<i64>()` on a character vector.
fn parse_chars_i64(s: &[char]) -> (r: Option<i64>)
    ensures
        match parse64(s@) {
            Some(v) => r == Some(v as i64),
            None => r is None,
        },
{
    let st = string_of(s);
    parse_i64(st.as_str())
}

/// Reads the number before a one-character unit suffix `unit`, as in `7d`.
fn number_before(l: &[char], unit: char) -> (r: Option<i64>)
    ensures
        (ends_with_char(l@, unit) && parse64(l@.drop_last()) is Some) ==> r == Some(
            parse64(l@.drop_last()).unwrap() as i64,
        ),
        !(ends_with_char(l@, unit) && parse64(l@.drop_last()) is Some) ==> r is None,
{
    if l.len() >= 1 && l[l.len() - 1] == unit {
        let num = prefix(l, l.len() - 1);
        assert(num@ =~= l@.drop_last());
        parse_chars_i64(num.as_slice())
    } else {
        None
    }
}

/// The time that an already-lowercased token denotes, if any.
fn time_of_lowercase(l: &[char]) -> (r: Option<TimeSpec>)
    ensures
        r == time_of_lower(l@),
{
    if is_literal(l, "yesterday") {
        return Some(TimeSpec::DaysAgo(1));
    }
    if is_literal(l, "last-week") || is_literal(l, "lastweek") {
        return Some(TimeSpec::DaysAgo(7));
    }
    if is_literal(l, "last-month") || is_literal(l, "lastmonth") {
        return Some(TimeSpec::MonthsAgo(1));
    }
    proof {
        lemma_month_of_range(l@);
    }
    if let Some(i) = month_index(l) {
        return Some(TimeSpec::Month(i + 1));
    }
    if let Some(n) = number_before(l, 'd') {
        return Some(TimeSpec::DaysAgo(n));
    }
    if let Some(n) = number_before(l, 'w') {
        return Some(TimeSpec::WeeksAgo(n));
    }
    if let Some(n) = number_before(l, 'm') {
        return Some(TimeSpec::MonthsAgo(n));
    }
    if l.len() >= 2 && l[l.len() - 2] == 'y' && l[l.len() - 1] == 'r' {
        let num = prefix(l, l.len() - 2);
        if let Some(n) = parse_chars_i64(num.as_slice()) {
            return Some(TimeSpec::YearsAgo(n));
        }
    }
    if let Some(n) = number_before(l, 'y') {
        return Some(TimeSpec::YearsAgo(n));
    }
    // A year is four characters that parse as a number in 1900..=2100.
    // Only ASCII text parses as a number, so counting characters here
    // agrees with counting bytes.
    if l.len() == 4 {
        let st = string_of(l);
        if let Some(year) = parse_i32(st.as_str()) {
            if 1900 <= year && year <= 2100 {
                return Some(TimeSpec::Year(year));
            }
        }
    }
    None
}

/// Parses a time token such as `7d`, `2w`, `3m`, `1y`, `1yr`, `yesterday`,
/// `last-week`, `last-month`, a month name, or a year from 1900 to 2100.
/// Letters are compared case-insensitively.
pub fn parse_time_token(s: &str) -> (r: Result<TimeSpec, WitError>)
    ensures
        match time_token(s@) {
            Ok(t) => r == Ok::<TimeSpec, WitError>(t),
            Err(e) => r matches Err(err) && err@ == e,
        },
{
    let lower = to_lowercase(s);
    let l = chars_of(lower.as_str());
    match time_of_lowercase(l.as_slice()) {
        Some(t) => Ok(t),
        None => Err(WitError::InvalidTime(String::from_str(s))),
    }
}


// ---------------------------------------------------------------------------
// Queries
// ---------------------------------------------------------------------------

/// The text of the error for an empty query.
pub open spec fn no_query_text() -> Seq<char> {
    "no query provided — try `wit <location>` or `wit --help`"@
}

/// The text of the error for a time range with no location.
pub open spec fn range_needs_location_text() -> Seq<char> {
    "time range needs a location — try `wit <location> jan..jul`"@
}

/// The text of the error for extra tokens after a location comparison.
pub open spec fn unexpected_tokens_text() -> Seq<char> {
    "unexpected tokens after location comparison"@
}

/// The text of the error for a `..` with a location on one side and a time on the other.
pub open spec fn mixed_range_text() -> Seq<char> {
    "can't mix location and time in .. syntax"@
}

/// The characters of each argument.
pub open spec fn arg_views(args: Seq<String>) -> Seq<Seq<char>> {
    args.map_values(|a: String| a@)
}

/// The tokens of a query: its arguments joined by spaces, then split on whitespace.
pub open spec fn query_tokens(args: Seq<Seq<char>>) -> Seq<Seq<char>> {
    ws_split(join_with(args, seq![' ']))
}

/// The first token, from index `k` on, that contains "..", or -1.
pub open spec fn dotdot_token_from(tokens: Seq<Seq<char>>, k: int) -> int
    decreases tokens.len() - k,
{
    if k < 0 || k >= tokens.len() {
        -1
    } else if first_dotdot(tokens[k]) != -1 {
        k
    } else {
        dotdot_token_from(tokens, k + 1)
    }
}

proof fn lemma_dotdot_token_from(tokens: Seq<Seq<char>>, k: int)
    requires
        0 <= k,
    ensures
        dotdot_token_from(tokens, k) == -1 || (k <= dotdot_token_from(tokens, k) < tokens.len()
            && first_dotdot(tokens[dotdot_token_from(tokens, k)]) != -1),
    decreases tokens.len() - k,
{
    if k < tokens.len() && first_dotdot(tokens[k]) == -1 {
        lemma_dotdot_token_from(tokens, k + 1);
    }
}

/// What a query whose tokens include a `..` means: `a..b` compares two
/// locations (optionally at one extra time token), `t1..t2` compares one
/// location (the other tokens) at two times.
pub open spec fn dotdot_query(tokens: Seq<Seq<char>>) -> Result<QueryView, ErrorView> {
    let idx = dotdot_token_from(tokens, 0);
    let tok = tokens[idx];
    let p = first_dotdot(tok);
    let left = tok.take(p);
    let right = tok.skip(p + 2);
    let others = tokens.remove(idx);
    match (time_token(left), time_token(right)) {
        (Ok(from), Ok(to)) => if others.len() == 0 {
            Err(ErrorView::Other(range_needs_location_text()))
        } else {
            Ok(QueryView::TimeRange { location: join_with(others, seq![' ']), from, to })
        },
        (Err(_), Err(_)) => if others.len() == 0 {
            Ok(QueryView::LocationDiff { left, right })
        } else if others.len() == 1 {
            match time_token(others[0]) {
                Ok(time) => Ok(QueryView::LocationDiffAt { left, right, time }),
                Err(e) => Err(e),
            }
        } else {
            Err(ErrorView::Other(unexpected_tokens_text()))
        },
        _ => Err(ErrorView::Other(mixed_range_text())),
    }
}

/// What `parse_query` gives for the arguments `args`: a query with a `..`
/// token is a range; one token is a location; with more tokens, a last
/// token that reads as a time is compared against the location the others
/// name, and otherwise all tokens together name the location.
pub open spec fn query_of(args: Seq<Seq<char>>) -> Result<QueryView, ErrorView> {
    let tokens = query_tokens(args);
    if args.len() == 0 {
        Err(ErrorView::Other(no_query_text()))
    } else if dotdot_token_from(tokens, 0) != -1 {
        dotdot_query(tokens)
    } else if tokens.len() == 1 {
        Ok(QueryView::Current { location: tokens[0] })
    } else {
        match time_token(tokens.last()) {
            Ok(past) => Ok(QueryView::TimeDiff {
                location: join_with(tokens.drop_last(), seq![' ']),
                past,
            }),
            Err(_) => Ok(QueryView::Current { location: join_with(tokens, seq![' ']) }),
        }
    }
}

/// Whether `parse_query` is defined on `args`: arguments that hold no token
/// at all (only whitespace) are outside its domain.
pub open spec fn query_args_ok(args: Seq<Seq<char>>) -> bool {
    args.len() > 0 ==> query_tokens(args).len() > 0
}

/// `parts` joined with single spaces.
fn join_spaced(parts: &[Vec<char>]) -> (r: Vec<char>)
    ensures
        r@ == join_with(views(parts@), seq![' ']),
{
    let mut sep: Vec<char> = Vec::new();
    sep.push(' ');
    assert(sep@ =~= seq![' ']);
    join(parts, sep.as_slice())
}

/// Copies of the first `n` tokens.
fn take_tokens(tokens: &[Vec<char>], n: usize) -> (r: Vec<Vec<char>>)
    requires
        n <= tokens.len(),
    ensures
        views(r@) == views(tokens@).take(n as int),
{
    let mut r: Vec<Vec<char>> = Vec::new();
    let mut i: usize = 0;
    while i < n
        invariant
            i <= n <= tokens.len(),
            views(r@) == views(tokens@).take(i as int),
        decreases n - i,
    {
        let c = copy_chars(tokens[i].as_slice());
        let ghost r0 = r@;
        r.push(c);
        i = i + 1;
        assert(views(r@) =~= views(r0).push(c@));
        assert(views(r@) =~= views(tokens@).take(i as int));
    }
    r
}

/// Copies of all tokens except the one at `idx`.
fn tokens_without(tokens: &[Vec<char>], idx: usize) -> (r: Vec<Vec<char>>)
    requires
        idx < tokens.len(),
    ensures
        views(r@) == views(tokens@).remove(idx as int),
{
    let mut r: Vec<Vec<char>> = Vec::new();
    let mut i: usize = 0;
    let ghost target = views(tokens@).remove(idx as int);
    while i < tokens.len()
        invariant
            i <= tokens.len(),
            idx < tokens.len(),
            target == views(tokens@).remove(idx as int),
            views(r@) == (if i <= idx { views(tokens@).take(i as int) } else { target.take(
                i - 1,
            ) }),
        decreases tokens.len() - i,
    {
        let ghost r0 = r@;
        if i != idx {
            let c = copy_chars(tokens[i].as_slice());
            r.push(c);
            assert(views(r@) =~= views(r0).push(c@));
        }
        i = i + 1;
        assert(views(r@) =~= (if i <= idx { views(tokens@).take(i as int) } else { target.take(
            i - 1,
        ) }));
    }
    assert(target.take(tokens.len() - 1) =~= target);
    r
}

/// The token at `i` as a `String`.
fn token_string(tokens: &[Vec<char>], i: usize) -> (r: String)
    requires
        i < tokens.len(),
    ensures
        r@ == views(tokens@)[i as int],
{
    string_of(tokens[i].as_slice())
}

/// Finds the first token holding "..", and where in it the ".." starts.
fn locate_dotdot(tokens: &[Vec<char>]) -> (r: (usize, usize))
    requires
        dotdot_token_from(views(tokens@), 0) != -1,
    ensures
        r.0 as int == dotdot_token_from(views(tokens@), 0),
        r.0 < tokens.len(),
        r.1 as int == first_dotdot(views(tokens@)[r.0 as int]),
        r.1 + 1 < views(tokens@)[r.0 as int].len(),
{
    let ghost tv = views(tokens@);
    proof {
        lemma_dotdot_token_from(tv, 0);
    }
    let mut idx: usize = 0;
    while idx < tokens.len()
        invariant
            idx <= tokens.len(),
            tv == views(tokens@),
            dotdot_token_from(tv, 0) == dotdot_token_from(tv, idx as int),
            dotdot_token_from(tv, 0) != -1,
        decreases tokens.len() - idx,
    {
        assert(tokens[idx as int]@ == tv[idx as int]);
        match find_dotdot(tokens[idx].as_slice()) {
            Some(p) => {
                proof {
                    crate::text::lemma_first_dotdot(tv[idx as int]);
                }
                return (idx, p);
            },
            None => {},
        }
        idx = idx + 1;
    }
    (0, 0)
}

/// Parses the tokens of a query that holds a `..`.
fn parse_dotdot_query(tokens: &[Vec<char>]) -> (r: Result<Query, WitError>)
    requires
        dotdot_token_from(views(tokens@), 0) != -1,
    ensures
        match dotdot_query(views(tokens@)) {
            Ok(q) => r matches Ok(rq) && rq@ == q,
            Err(e) => r matches Err(re) && re@ == e,
        },
{
    let ghost tv = views(tokens@);
    let (idx, pos) = locate_dotdot(tokens);
    let tok = &tokens[idx];
    assert(tok@ == tv[idx as int]);
    proof {
        crate::text::lemma_first_dotdot(tok@);
    }
    assert(pos + 1 < tok.len());
    let left = prefix(tok.as_slice(), pos);
    let mut right: Vec<char> = Vec::new();
    let mut j: usize = pos + 2;
    while j < tok.len()
        invariant
            pos + 2 <= j <= tok.len(),
            right@ == tok@.subrange(pos + 2, j as int),
        decreases tok.len() - j,
    {
        right.push(tok[j]);
        j = j + 1;
        assert(right@ =~= tok@.subrange(pos + 2, j as int));
    }
    assert(right@ =~= tok@.skip(pos + 2));
    let others = tokens_without(tokens, idx);
    let left_s = string_of(left.as_slice());
    let right_s = string_of(right.as_slice());
    let lt = parse_time_token(left_s.as_str());
    let rt = parse_time_token(right_s.as_str());
    match (lt, rt) {
        (Ok(from), Ok(to)) => {
            if others.len() == 0 {
                Err(WitError::Other(String::from_str(
                    "time range needs a location — try `wit <location> jan..jul`",
                )))
            } else {
                let loc = join_spaced(others.as_slice());
                Ok(Query::TimeRange { location: string_of(loc.as_slice()), from, to })
            }
        },
        (Err(_), Err(_)) => {
            if others.len() == 0 {
                Ok(Query::LocationDiff { left: left_s, right: right_s })
            } else if others.len() == 1 {
                let o = token_string(others.as_slice(), 0);
                match parse_time_token(o.as_str()) {
                    Ok(time) => Ok(Query::LocationDiffAt { left: left_s, right: right_s, time }),
                    Err(e) => Err(e),
                }
            } else {
                Err(WitError::Other(String::from_str("unexpected tokens after location comparison")))
            }
        },
        _ => Err(WitError::Other(String::from_str("can't mix location and time in .. syntax"))),
    }
}

/// The tokens of a query's arguments.
fn token_list(args: &[String]) -> (r: Vec<Vec<char>>)
    ensures
        views(r@) == query_tokens(arg_views(args@)),
{
    let ghost av = arg_views(args@);
    let mut parts: Vec<Vec<char>> = Vec::new();
    let mut i: usize = 0;
    while i < args.len()
        invariant
            i <= args.len(),
            av == arg_views(args@),
            views(parts@) == av.take(i as int),
        decreases args.len() - i,
    {
        let c = chars_of(args[i].as_str());
        let ghost p0 = parts@;
        parts.push(c);
        i = i + 1;
        assert(views(parts@) =~= views(p0).push(c@));
        assert(views(parts@) =~= av.take(i as int));
    }
    assert(av.take(args.len() as int) =~= av);
    let joined = join_spaced(parts.as_slice());
    split_whitespace(joined.as_slice())
}

/// Whether `parse_query` accepts these arguments: either no arguments, or
/// arguments holding at least one token.
pub fn query_args_valid(args: &[String]) -> (r: bool)
    ensures
        r == query_args_ok(arg_views(args@)),
{
    if args.len() == 0 {
        return true;
    }
    let tokens = token_list(args);
    tokens.len() > 0
}

/// Parses a shorthand query from positional arguments. The arguments are
/// joined with spaces and split on whitespace, so `["tokyo 7d"]` and
/// `["tokyo", "7d"]` mean the same.
pub fn parse_query(args: &[String]) -> (r: Result<Query, WitError>)
    requires
        query_args_ok(arg_views(args@)),
    ensures
        match query_of(arg_views(args@)) {
            Ok(q) => r matches Ok(rq) && rq@ == q,
            Err(e) => r matches Err(re) && re@ == e,
        },
{
    let ghost av = arg_views(args@);
    if args.len() == 0 {
        return Err(WitError::Other(String::from_str(
            "no query provided — try `wit <location>` or `wit --help`",
        )));
    }
    let tokens = token_list(args);
    let ghost tv = views(tokens@);
    assert(tv == query_tokens(av));
    let mut k: usize = 0;
    while k < tokens.len()
        invariant
            k <= tokens.len(),
            tv == views(tokens@),
            av == arg_views(args@),
            av.len() > 0,
            tv == query_tokens(av),
            dotdot_token_from(tv, 0) == dotdot_token_from(tv, k as int),
        decreases tokens.len() - k,
    {
        assert(tokens[k as int]@ == tv[k as int]);
        if find_dotdot(tokens[k].as_slice()).is_some() {
            assert(dotdot_token_from(tv, k as int) == k as int);
            return parse_dotdot_query(tokens.as_slice());
        }
        k = k + 1;
    }
    let n = tokens.len();
    if n == 1 {
        Ok(Query::Current { location: token_string(tokens.as_slice(), 0) })
    } else {
        let last = token_string(tokens.as_slice(), n - 1);
        match parse_time_token(last.as_str()) {
            Ok(past) => {
                let head = take_tokens(tokens.as_slice(), n - 1);
                assert(views(head@) =~= tv.drop_last());
                let loc = join_spaced(head.as_slice());
                Ok(Query::TimeDiff { location: string_of(loc.as_slice()), past })
            },
            Err(_) => {
                let loc = join_spaced(tokens.as_slice());
                Ok(Query::Current { location: string_of(loc.as_slice()) })
            },
        }
    }
}

// ---------------------------------------------------------------------------
// Laws of the query language
// ---------------------------------------------------------------------------

/// Whether `t` is a plain word: non-empty, without whitespace and without dots.
pub open spec fn plain_word(t: Seq<char>) -> bool {
    &&& t.len() > 0
    &&& forall|i: int| 0 <= i < t.len() ==> !is_ws(#[trigger] t[i]) && t[i] != '.'
}

proof fn lemma_split_word(a: Seq<char>)
    requires
        a.len() > 0,
        forall|i: int| 0 <= i < a.len() ==> !is_ws(#[trigger] a[i]),
    ensures
        ws_split(a) == seq![a],
    decreases a.len(),
{
    if a.len() > 1 {
        lemma_split_word(a.drop_last());
        assert(!is_ws(a[a.len() - 2]));
        assert(a.drop_last().push(a.last()) =~= a);
        assert(ws_split(a) =~= seq![a]);
    } else {
        assert(a.drop_last() =~= Seq::<char>::empty());
        assert(ws_split(a.drop_last()) == Seq::<Seq<char>>::empty());
        assert(seq![a.last()] =~= a);
        assert(ws_split(a) == Seq::<Seq<char>>::empty().push(seq![a.last()]));
        assert(ws_split(a) =~= seq![a]);
    }
}

proof fn lemma_split_two(a: Seq<char>, b: Seq<char>, k: int)
    requires
        a.len() > 0,
        forall|i: int| 0 <= i < a.len() ==> !is_ws(#[trigger] a[i]),
        forall|i: int| 0 <= i < b.len() ==> !is_ws(#[trigger] b[i]),
        1 <= k <= b.len(),
    ensures
        ws_split(a + seq![' '] + b.take(k)) == seq![a, b.take(k)],
    decreases k,
{
    let s = a + seq![' '] + b.take(k);
    if k == 1 {
        lemma_split_word(a);
        assert(s.drop_last() =~= a + seq![' ']);
        assert((a + seq![' ']).drop_last() =~= a);
        assert(ws_split(a + seq![' ']) == ws_split(a));
        assert(s[s.len() - 2] == ' ');
        assert(b.take(1) =~= seq![b[0]]);
        assert(ws_split(s) =~= seq![a, b.take(k)]);
    } else {
        lemma_split_two(a, b, k - 1);
        assert(s.drop_last() =~= a + seq![' '] + b.take(k - 1));
        assert(s[s.len() - 2] == b[k - 2]);
        assert(b.take(k - 1).push(b[k - 1]) =~= b.take(k));
        assert(ws_split(s) =~= seq![a, b.take(k)]);
    }
}

proof fn lemma_plain_no_dotdot(t: Seq<char>)
    requires
        forall|i: int| 0 <= i < t.len() ==> (#[trigger] t[i]) != '.',
    ensures
        first_dotdot(t) == -1,
{
    crate::text::lemma_first_dotdot(t);
}

/// `wit <location>` asks for the current weather at a one-word location.
pub proof fn law_single_word_is_current(loc: Seq<char>)
    requires
        plain_word(loc),
    ensures
        query_of(seq![loc]) == Ok::<QueryView, ErrorView>(QueryView::Current { location: loc }),
{
    lemma_split_word(loc);
    assert(join_with(seq![loc], seq![' ']) == loc);
    lemma_plain_no_dotdot(loc);
    let tokens = query_tokens(seq![loc]);
    assert(dotdot_token_from(tokens, 1) == -1);
}

/// `wit <location> <time>` compares a one-word location now with that time.
pub proof fn law_location_then_time(loc: Seq<char>, t: Seq<char>)
    requires
        plain_word(loc),
        plain_word(t),
        time_token(t) is Ok,
    ensures
        query_of(seq![loc, t]) == Ok::<QueryView, ErrorView>(
            QueryView::TimeDiff { location: loc, past: time_token(t)->Ok_0 },
        ),
{
    let args = seq![loc, t];
    assert(args.drop_last() =~= seq![loc]);
    assert(join_with(seq![loc], seq![' ']) == loc);
    assert(args.last() == t);
    assert(join_with(args, seq![' ']) == loc + seq![' '] + t);
    lemma_split_two(loc, t, t.len() as int);
    assert(t.take(t.len() as int) =~= t);
    let tokens = query_tokens(args);
    lemma_plain_no_dotdot(loc);
    lemma_plain_no_dotdot(t);
    assert(dotdot_token_from(tokens, 2) == -1);
    assert(dotdot_token_from(tokens, 1) == -1);
}

/// `wit <word> <word>` where the second word is no time asks for the
/// current weather at the two-word location, such as `wit new york`.
pub proof fn law_two_word_location(a: Seq<char>, b: Seq<char>)
    requires
        plain_word(a),
        plain_word(b),
        time_token(b) is Err,
    ensures
        query_of(seq![a, b]) == Ok::<QueryView, ErrorView>(
            QueryView::Current { location: a + seq![' '] + b },
        ),
{
    let args = seq![a, b];
    assert(args.drop_last() =~= seq![a]);
    assert(args.last() == b);
    assert(join_with(seq![a], seq![' ']) == a);
    assert(join_with(args, seq![' ']) == a + seq![' '] + b);
    lemma_split_two(a, b, b.len() as int);
    assert(b.take(b.len() as int) =~= b);
    let tokens = query_tokens(args);
    assert(tokens == seq![a, b]);
    lemma_plain_no_dotdot(a);
    lemma_plain_no_dotdot(b);
    assert(dotdot_token_from(tokens, 2) == -1);
    assert(dotdot_token_from(tokens, 1) == -1);
    assert(tokens.last() == b);
}

/// `wit <a>..<b>` compares two one-word locations now, when neither side
/// reads as a time.
pub proof fn law_location_pair(a: Seq<char>, b: Seq<char>)
    requires
        plain_word(a),
        plain_word(b),
        time_token(a) is Err,
        time_token(b) is Err,
    ensures
        query_of(seq![a + ".."@ + b]) == Ok::<QueryView, ErrorView>(
            QueryView::LocationDiff { left: a, right: b },
        ),
{
    reveal_strlit("..");
    let tok = a + ".."@ + b;
    assert forall|i: int| 0 <= i < tok.len() implies !is_ws(#[trigger] tok[i]) by {
        if i < a.len() {
            assert(tok[i] == a[i]);
        } else if i >= a.len() + 2 {
            assert(tok[i] == b[i - a.len() - 2]);
        }
    }
    lemma_split_word(tok);
    assert(join_with(seq![tok], seq![' ']) == tok);
    let tokens = query_tokens(seq![tok]);
    assert(tokens == seq![tok]);
    crate::text::lemma_first_dotdot(tok);
    assert(crate::text::dotdot_at(tok, a.len() as int));
    assert forall|j: int| 0 <= j < a.len() implies !crate::text::dotdot_at(tok, j) by {
        assert(tok[j] == a[j]);
    }
    assert(first_dotdot(tok) == a.len());
    assert(dotdot_token_from(tokens, 0) == 0);
    assert(tok.take(a.len() as int) =~= a);
    assert(tok.skip(a.len() as int + 2) =~= b);
    assert(tokens.remove(0) =~= Seq::<Seq<char>>::empty());
}

/// `wit <location> <t1>..<t2>` compares a one-word location at two times.
pub proof fn law_time_range(loc: Seq<char>, t1: Seq<char>, t2: Seq<char>)
    requires
        plain_word(loc),
        plain_word(t1),
        plain_word(t2),
        time_token(t1) is Ok,
        time_token(t2) is Ok,
    ensures
        query_of(seq![loc, t1 + ".."@ + t2]) == Ok::<QueryView, ErrorView>(
            QueryView::TimeRange {
                location: loc,
                from: time_token(t1)->Ok_0,
                to: time_token(t2)->Ok_0,
            },
        ),
{
    reveal_strlit("..");
    let tok = t1 + ".."@ + t2;
    assert forall|i: int| 0 <= i < tok.len() implies !is_ws(#[trigger] tok[i]) by {
        if i < t1.len() {
            assert(tok[i] == t1[i]);
        } else if i >= t1.len() + 2 {
            assert(tok[i] == t2[i - t1.len() - 2]);
        }
    }
    let args = seq![loc, tok];
    assert(args.drop_last() =~= seq![loc]);
    assert(join_with(seq![loc], seq![' ']) == loc);
    assert(args.last() == tok);
    assert(join_with(args, seq![' ']) == loc + seq![' '] + tok);
    lemma_split_two(loc, tok, tok.len() as int);
    assert(tok.take(tok.len() as int) =~= tok);
    let tokens = query_tokens(args);
    assert(tokens == seq![loc, tok]);
    lemma_plain_no_dotdot(loc);
    crate::text::lemma_first_dotdot(tok);
    assert(crate::text::dotdot_at(tok, t1.len() as int));
    assert forall|j: int| 0 <= j < t1.len() implies !crate::text::dotdot_at(tok, j) by {
        assert(tok[j] == t1[j]);
    }
    assert(first_dotdot(tok) == t1.len());
    assert(dotdot_token_from(tokens, 1) == 1);
    assert(dotdot_token_from(tokens, 0) == 1);
    assert(tok.take(t1.len() as int) =~= t1);
    assert(tok.skip(t1.len() as int + 2) =~= t2);
    assert(tokens.remove(1) =~= seq![loc]);
    assert(join_with(seq![loc], seq![' ']) == loc);
}

/// A month specification always resolves to the 15th of that month in the
/// current year.
pub proof fn law_month_resolves(m: u32, today: Date)
    requires
        today.valid(),
        1 <= m <= 12,
    ensures
        resolved(TimeSpec::Month(m), today) == Some(Date { year: today.year, month: m, day: 15 }),
{
}

/// A year specification always resolves to a day of that year: today's
/// month and day, or the 28th of today's month when that day does not exist.
pub proof fn law_year_resolves(y: i32, today: Date)
    requires
        today.valid(),
        1900 <= y <= 2100,
    ensures
        resolved(TimeSpec::Year(y), today) matches Some(d) && d.year == y && d.month == today.month
            && (d.day == today.day || d.day == 28),
{
}

/// Time tokens are read case-insensitively: two tokens with the same
/// lowercase form denote the same time, or are both rejected.
pub proof fn law_time_tokens_ignore_case(s1: Seq<char>, s2: Seq<char>)
    requires
        lower_text(s1) == lower_text(s2),
    ensures
        (time_token(s1) is Ok) == (time_token(s2) is Ok),
        time_token(s1) is Ok ==> time_token(s1) == time_token(s2),
{
}

proof fn lemma_suffixed_lower(l: Seq<char>, name: Seq<char>, k: int)
    requires
        suffixed_from(l, name, k),
        lower_ascii(name),
    ensures
        lower_ascii(l),
    decreases 10 - k,
{
    lemma_time_words_lower();
    if l == name + month_suffix(k) {
        assert(lower_ascii(month_suffix(k)));
        crate::text::lemma_lower_ascii_concat(name, month_suffix(k));
    } else {
        lemma_suffixed_lower(l, name, k + 1);
    }
}

proof fn lemma_short_month_lower(l: Seq<char>, i: int)
    requires
        short_month_from(l, i) is Some,
    ensures
        lower_ascii(l),
    decreases 12 - i,
{
    lemma_time_words_lower();
    if month_form(l, short_month_name(i)) {
        assert(lower_ascii(short_month_name(i)));
        if l != short_month_name(i) {
            lemma_suffixed_lower(l, short_month_name(i), 0);
        }
    } else {
        lemma_short_month_lower(l, i + 1);
    }
}

proof fn lemma_full_month_lower(l: Seq<char>, i: int)
    requires
        full_month_from(l, i) is Some,
    ensures
        lower_ascii(l),
    decreases 12 - i,
{
    lemma_time_words_lower();
    if l == full_month_name(i) {
        assert(lower_ascii(full_month_name(i)));
    } else {
        lemma_full_month_lower(l, i + 1);
    }
}

/// A token body followed by a lowercase ASCII unit is lowercase ASCII when
/// the body is an integer.
proof fn lemma_number_unit_lower(l: Seq<char>, n: int)
    requires
        0 <= n <= l.len(),
        crate::text::int_literal(l.take(n)) is Some,
        forall|i: int| n <= i < l.len() ==> (#[trigger] l[i] as int) < 128 && ascii_lower(l[i]) == l[i],
    ensures
        lower_ascii(l),
{
    crate::text::lemma_int_literal_lower(l.take(n));
    assert forall|i: int| 0 <= i < l.len() implies (#[trigger] l[i] as int) < 128 && ascii_lower(
        l[i],
    ) == l[i] by {
        if i < n {
            assert(l[i] == l.take(n)[i]);
        }
    }
}

/// Every token that the time grammar accepts, once lowercased, is
/// lowercase ASCII.
proof fn lemma_time_of_lower_ascii(l: Seq<char>)
    requires
        time_of_lower(l) is Some,
    ensures
        lower_ascii(l),
{
    lemma_time_words_lower();
    if l == "yesterday"@ || l == "last-week"@ || l == "lastweek"@ || l == "last-month"@ || l
        == "lastmonth"@ {
    } else if month_of(l) is Some {
        if short_month_from(l, 0) is Some {
            lemma_short_month_lower(l, 0);
        } else {
            lemma_full_month_lower(l, 0);
        }
    } else if ends_with_char(l, 'd') && parse64(l.drop_last()) is Some {
        assert(l.drop_last() =~= l.take(l.len() - 1));
        lemma_number_unit_lower(l, l.len() - 1);
    } else if ends_with_char(l, 'w') && parse64(l.drop_last()) is Some {
        assert(l.drop_last() =~= l.take(l.len() - 1));
        lemma_number_unit_lower(l, l.len() - 1);
    } else if ends_with_char(l, 'm') && parse64(l.drop_last()) is Some {
        assert(l.drop_last() =~= l.take(l.len() - 1));
        lemma_number_unit_lower(l, l.len() - 1);
    } else if ends_with_yr(l) && parse64(l.take(l.len() - 2)) is Some {
        lemma_number_unit_lower(l, l.len() - 2);
    } else if ends_with_char(l, 'y') && parse64(l.drop_last()) is Some {
        assert(l.drop_last() =~= l.take(l.len() - 1));
        lemma_number_unit_lower(l, l.len() - 1);
    } else {
        assert(l.take(l.len() as int) =~= l);
        lemma_number_unit_lower(l, l.len() as int);
    }
}

/// Lowercasing a time token first changes nothing: a token that reads as a
/// time reads as the same time once lowercased (`"JAN"` and `"jan"`, `"7D"`
/// and `"7d"`), and an ASCII token is accepted exactly when its lowercase
/// form is.
pub proof fn law_time_token_of_lowercase(s: Seq<char>)
    ensures
        time_token(s) is Ok ==> time_token(lower_text(s)) == time_token(s),
        crate::text::is_ascii_text(s) ==> ((time_token(lower_text(s)) is Ok) == (time_token(
            s,
        ) is Ok)),
{
    let l = lower_text(s);
    if time_token(s) is Ok {
        lemma_time_of_lower_ascii(l);
        crate::text::lemma_lower_ascii_fixed(l);
    }
    if crate::text::is_ascii_text(s) {
        crate::text::lemma_lower_text_ascii(s);
        crate::text::lemma_lower_ascii_fixed(l);
    }
}

/// The literal words of the time grammar are lowercase ASCII.
proof fn lemma_time_words_lower()
    ensures
        lower_ascii("yesterday"@),
        lower_ascii("last-week"@),
        lower_ascii("lastweek"@),
        lower_ascii("last-month"@),
        lower_ascii("lastmonth"@),
        forall|i: int| lower_ascii(#[trigger] short_month_name(i)),
        forall|i: int| lower_ascii(#[trigger] full_month_name(i)),
        forall|k: int| lower_ascii(#[trigger] month_suffix(k)),
{
    reveal_strlit("yesterday");
    reveal_strlit("last-week");
    reveal_strlit("lastweek");
    reveal_strlit("last-month");
    reveal_strlit("lastmonth");
    reveal_strlit("jan");
    reveal_strlit("feb");
    reveal_strlit("mar");
    reveal_strlit("apr");
    reveal_strlit("may");
    reveal_strlit("jun");
    reveal_strlit("jul");
    reveal_strlit("aug");
    reveal_strlit("sep");
    reveal_strlit("oct");
    reveal_strlit("nov");
    reveal_strlit("dec");
    reveal_strlit("january");
    reveal_strlit("february");
    reveal_strlit("march");
    reveal_strlit("april");
    reveal_strlit("june");
    reveal_strlit("july");
    reveal_strlit("august");
    reveal_strlit("september");
    reveal_strlit("october");
    reveal_strlit("november");
    reveal_strlit("december");
    reveal_strlit("uary");
    reveal_strlit("ruary");
    reveal_strlit("ch");
    reveal_strlit("il");
    reveal_strlit("e");
    reveal_strlit("y");
    reveal_strlit("ust");
    reveal_strlit("tember");
    reveal_strlit("ober");
    reveal_strlit("ember");
}

} // verus!
