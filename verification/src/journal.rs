//! The journal's bookkeeping rules: commit messages, which locations a
//! command reads, history filters, and how a backfill walks through time.

use vstd::prelude::*;

use crate::config::{
    entry_index, lemma_entry_index, slug_of, slugify, snapshot_file, snapshot_path, ConfigView,
    WitConfig,
};
use crate::date::{
    add_days, date_before, days_after, days_between, days_from, is_before, parse_ymd, parsed_ymd,
    sub_days, days_before, day_in_range, day_number, lemma_day_number_order, lemma_shift_result, format_ymd, date_text, Date,
};
use crate::error::{ErrorView, WitError};
use crate::query::{parse_time_token, resolved, time_token};
use crate::text::join_with;

verus! {

/// The commit message of a snapshot of several locations:
/// "snap: " and the summaries joined by " | ".
pub open spec fn snap_text(summaries: Seq<Seq<char>>) -> Seq<char> {
    "snap: "@ + join_with(summaries, " | "@)
}

/// The commit message of a snapshot of several locations.
pub fn snap_message(summaries: &[String]) -> (r: String)
    ensures
        r@ == snap_text(summaries@.map_values(|s: String| s@)),
{
    let ghost sv = summaries@.map_values(|s: String| s@);
    let mut r = String::from_str("snap: ");
    let mut i: usize = 0;
    while i < summaries.len()
        invariant
            i <= summaries.len(),
            sv == summaries@.map_values(|s: String| s@),
            r@ == "snap: "@ + join_with(sv.take(i as int), " | "@),
        decreases summaries.len() - i,
    {
        assert(sv.take(i + 1).drop_last() =~= sv.take(i as int));
        if i > 0 {
            r.append(" | ");
        }
        r.append(summaries[i].as_str());
        i = i + 1;
        assert(sv.take(i as int).last() == summaries[i - 1]@);
        proof {
            if i > 1 {
                assert(("snap: "@ + join_with(sv.take(i - 1), " | "@)) + " | "@ + summaries[i - 1]@
                    =~= "snap: "@ + (join_with(sv.take(i - 1), " | "@) + " | "@ + summaries[i
                    - 1]@));
            } else {
                assert(sv.take(1) =~= seq![summaries[0]@]);
            }
        }
    }
    assert(sv.take(summaries.len() as int) =~= sv);
    r
}

/// The commit message of one location's snapshot: "snap: <name> <summary>".
pub open spec fn location_snap_text(name: Seq<char>, summary: Seq<char>) -> Seq<char> {
    "snap: "@ + name + " "@ + summary
}

/// The commit message of one location's snapshot.
pub fn location_snap_message(name: &str, summary: &str) -> (r: String)
    ensures
        r@ == location_snap_text(name@, summary@),
{
    let mut r = String::from_str("snap: ");
    r.append(name);
    r.append(" ");
    r.append(summary);
    r
}

/// The commit message of a newly tracked location: "add: <name> (<summary>)".
pub open spec fn add_text(name: Seq<char>, summary: Seq<char>) -> Seq<char> {
    "add: "@ + name + " ("@ + summary + ")"@
}

/// The commit message of a newly tracked location.
pub fn add_message(name: &str, summary: &str) -> (r: String)
    ensures
        r@ == add_text(name@, summary@),
{
    let mut r = String::from_str("add: ");
    r.append(name);
    r.append(" (");
    r.append(summary);
    r.append(")");
    r
}

/// Whether tracked location `i` passes the dashboard filter.
pub open spec fn status_keeps(c: ConfigView, filter: Option<Seq<char>>, i: int) -> bool {
    match filter {
        Some(f) => c.locations[i].0 == slug_of(f),
        None => true,
    }
}

/// With a filter, the dashboard keeps a tracked location exactly when its
/// stored slug is the filter's slug, whatever its display name: renaming a
/// location never changes whether it is shown.
pub proof fn law_status_filter_by_slug(c: ConfigView, f: Seq<char>, i: int, name: Seq<char>)
    requires
        0 <= i < c.locations.len(),
    ensures
        status_keeps(c, Some(f), i) <==> c.locations[i].0 == slug_of(f),
        status_keeps(
            ConfigView { units: c.units, locations: c.locations.update(i, (c.locations[i].0, name)) },
            Some(f),
            i,
        ) == status_keeps(c, Some(f), i),
        status_keeps(c, None, i),
{
}

/// Whether `v` lists, in increasing order, exactly the tracked locations
/// that pass the dashboard filter.
pub open spec fn lists_kept(c: ConfigView, filter: Option<Seq<char>>, v: Seq<usize>) -> bool {
    &&& forall|k: int|
        0 <= k < v.len() ==> (#[trigger] v[k]) < c.locations.len() && status_keeps(c, filter, v[k] as int)
    &&& forall|i: int| 0 <= i < c.locations.len() && status_keeps(c, filter, i) ==> v.contains(i as usize)
    &&& forall|a: int, b: int| 0 <= a < b < v.len() ==> v[a] < v[b]
}

/// The tracked locations (by index, in order) the dashboard shows: all of
/// them, or with a filter those whose slug is the filter's slug. Nothing
/// tracked is an error.
pub fn status_locations(config: &WitConfig, filter: Option<&str>) -> (r: Result<Vec<usize>, WitError>)
    ensures
        config@.locations.len() == 0 ==> (r matches Err(e) && e@ == ErrorView::NoLocations),
        config@.locations.len() > 0 ==> (r matches Ok(v) && lists_kept(
            config@,
            match filter {
                Some(f) => Some(f@),
                None => None,
            },
            v@,
        )),
        r matches Ok(v) ==> (filter matches Some(f) ==> forall|i: int|
            0 <= i < config@.locations.len() ==> (v@.contains(i as usize) <==> (
            #[trigger] config@.locations[i]).0 == slug_of(f@))),
        r matches Ok(v) ==> (filter is None ==> forall|i: int|
            0 <= i < config@.locations.len() ==> v@.contains(#[trigger] (i as usize))),
        r matches Ok(v) ==> forall|k: int| 0 <= k < v@.len() ==> (#[trigger] v@[k]) < config@.locations.len(),
{
    if config.locations.len() == 0 {
        return Err(WitError::NoLocations);
    }
    let ghost fv = match filter {
        Some(f) => Some(f@),
        None => None,
    };
    let want = match filter {
        Some(f) => Some(slugify(f)),
        None => None,
    };
    let mut v: Vec<usize> = Vec::new();
    let mut i: usize = 0;
    while i < config.locations.len()
        invariant
            i <= config.locations.len(),
            fv == (match filter {
                Some(f) => Some(f@),
                None => None,
            }),
            match filter {
                Some(f) => want matches Some(w) && w@ == slug_of(f@),
                None => want is None,
            },
            forall|k: int| 0 <= k < v@.len() ==> (#[trigger] v@[k]) < i && status_keeps(config@, fv, v@[k] as int),
            forall|j: int| 0 <= j < i && status_keeps(config@, fv, j) ==> v@.contains(j as usize),
            forall|a: int, b: int| 0 <= a < b < v@.len() ==> v@[a] < v@[b],
        decreases config.locations.len() - i,
    {
        assert(config@.locations[i as int] == config.locations[i as int]@);
        let keep = match &want {
            Some(w) => config.locations[i].slug == *w,
            None => true,
        };
        let ghost before = v@;
        if keep {
            v.push(i);
            assert(v@[v@.len() - 1] == i);
        }
        proof {
            assert forall|j: int| 0 <= j < i + 1 && status_keeps(config@, fv, j) implies v@.contains(j as usize) by {
                if j < i {
                    let k = choose|k: int| 0 <= k < before.len() && before[k] == j as usize;
                    assert(v@[k] == j as usize);
                } else {
                    assert(v@[v@.len() - 1] == i);
                }
            }
        }
        i = i + 1;
    }
    assert forall|j: int| 0 <= j < config@.locations.len() implies (v@.contains(j as usize)
        <==> status_keeps(config@, fv, j)) by {
        if v@.contains(j as usize) {
            let k = choose|k: int| 0 <= k < v@.len() && v@[k] == j as usize;
            assert(status_keeps(config@, fv, v@[k] as int));
            assert(v@[k] as int == j);
        }
        if status_keeps(config@, fv, j) {
            assert(v@.contains(j as usize));
        }
    }
    proof {
        match filter {
            Some(f) => {
                assert(fv == Some(f@));
                assert forall|j: int| 0 <= j < config@.locations.len() implies (v@.contains(
                    j as usize,
                ) <==> (#[trigger] config@.locations[j]).0 == slug_of(f@)) by {
                    assert(status_keeps(config@, fv, j) == (config@.locations[j].0 == slug_of(f@)));
                }
            },
            None => {
                assert forall|j: int| 0 <= j < config@.locations.len() implies v@.contains(
                    #[trigger] (j as usize),
                ) by {
                    assert(status_keeps(config@, fv, j));
                }
            },
        }
    }
    Ok(v)
}

/// What `wit log` shows: with a location, that location's snapshot file and
/// tracked name (an untracked location is an error); without, every commit
/// under the name "all locations".
pub open spec fn log_scope_of(c: ConfigView, location: Option<Seq<char>>) -> Result<
    (Option<Seq<char>>, Seq<char>),
    ErrorView,
> {
    match location {
        Some(l) => {
            let i = entry_index(c, slug_of(l));
            if i == -1 {
                Err(ErrorView::LocationNotFound(l))
            } else {
                Ok((Some(snapshot_path(slug_of(l))), c.locations[i].1))
            }
        },
        None => Ok((None, "all locations"@)),
    }
}

/// The history filter and heading of `wit log`.
pub fn log_scope(config: &WitConfig, location: Option<&str>) -> (r: Result<
    (Option<String>, String),
    WitError,
>)
    ensures
        match log_scope_of(
            config@,
            match location {
                Some(l) => Some(l@),
                None => None,
            },
        ) {
            Ok((p, n)) => r matches Ok((rp, rn)) && rn@ == n && match p {
                Some(ps) => rp matches Some(x) && x@ == ps,
                None => rp is None,
            },
            Err(e) => r matches Err(re) && re@ == e,
        },
{
    match location {
        Some(loc) => {
            let slug = slugify(loc);
            match config.find_location(slug.as_str()) {
                Some(i) => {
                    proof {
                        lemma_entry_index(config@, slug@);
                    }
                    assert(config@.locations[i as int] == config.locations[i as int]@);
                    Ok((Some(snapshot_file(slug.as_str())), config.locations[i].name.clone()))
                },
                None => Err(WitError::LocationNotFound(String::from_str(loc))),
            }
        },
        None => Ok((None, String::from_str("all locations"))),
    }
}

/// The start date a backfill's `--since` names on the day `today`: a
/// `YYYY-MM-DD` date, or else a time token resolved on `today`. `None` where
/// resolving the token overflows.
pub open spec fn since_date(s: Seq<char>, today: Date) -> Option<Result<Date, ErrorView>> {
    match parsed_ymd(s) {
        Some(d) => Some(Ok(d)),
        None => match time_token(s) {
            Err(e) => Some(Err(e)),
            Ok(t) => match resolved(t, today) {
                Some(d) => Some(Ok(d)),
                None => None,
            },
        },
    }
}

/// Parses a backfill's `--since` on the day `today`.
pub fn parse_since(s: &str, today: Date) -> (r: Option<Result<Date, WitError>>)
    requires
        today.valid(),
    ensures
        match since_date(s@, today) {
            Some(Ok(d)) => r == Some(Ok::<Date, WitError>(d)) && d.valid(),
            Some(Err(e)) => r matches Some(Err(re)) && re@ == e,
            None => r is None,
        },
{
    if let Some(d) = parse_ymd(s) {
        return Some(Ok(d));
    }
    match parse_time_token(s) {
        Err(e) => Some(Err(e)),
        Ok(t) => match t.resolve_on(today) {
            Some(d) => Some(Ok(d)),
            None => None,
        },
    }
}

/// One 90-day window of a backfill starting at `start` and ending no later
/// than `end`, and where the next window starts (the day after this one
/// ends). `None` where the date arithmetic overflows.
pub open spec fn backfill_window(start: Date, end: Date) -> Option<(Date, Date)> {
    match days_after(start, 89) {
        Some(a) => {
            let last = if date_before(end, a) { end } else { a };
            match days_after(last, 1) {
                Some(next) => Some((last, next)),
                None => None,
            }
        },
        None => None,
    }
}

/// The window of a backfill that starts at `start`, and the next start.
/// A window spans at most 90 days, never ends before it starts or after
/// `end`, and is cut short only at `end`; the next window starts on the
/// day after it ends, so walking windows until `end` is passed leaves no
/// day out, covers none twice, and terminates.
pub fn backfill_chunk(start: Date, end: Date) -> (r: Option<(Date, Date)>)
    requires
        start.valid(),
        end.valid(),
        !date_before(end, start),
    ensures
        r == backfill_window(start, end),
        r matches Some((last, next)) ==> {
            &&& !date_before(last, start)
            &&& !date_before(end, last)
            &&& date_before(last, next)
            &&& date_before(start, next)
            &&& last.valid()
            &&& next.valid()
            &&& day_number(start) <= day_number(last) <= day_number(start) + 89
            &&& (last == end || day_number(last) == day_number(start) + 89)
            &&& day_number(last) <= day_number(end)
            &&& day_number(next) == day_number(last) + 1
        },
{
    let a0 = add_days(start, 89);
    proof {
        lemma_shift_result(day_number(start), 89, a0);
    }
    match a0 {
        Some(a) => {
            let last = if is_before(end, a) { end } else { a };
            proof {
                lemma_day_number_order(end, a);
                lemma_day_number_order(end, start);
            }
            let r = add_days(last, 1);
            proof {
                lemma_shift_result(day_number(last), 1, r);
            }
            match r {
                Some(next) => Some((last, next)),
                None => None,
            }
        },
        None => None,
    }
}

/// The last day a backfill covers: the day before `today` (today belongs
/// to live snapshots). `None` where that day is out of range.
pub fn backfill_end(today: Date) -> (r: Option<Date>)
    requires
        today.valid(),
    ensures
        r == days_before(today, 1),
        r is Some <==> day_in_range(day_number(today) - 1),
        r matches Some(d) ==> d.valid() && day_number(d) == day_number(today) - 1,
{
    let r = sub_days(today, 1);
    proof {
        lemma_shift_result(day_number(today), -1, r);
    }
    r
}

/// `NaiveDate`'s `Display` (via `to_string`): the date as `date_text`
/// writes it.
#[verifier::external_body]
pub(crate) fn display_date(d: Date) -> (r: String)
    requires
        d.valid(),
    ensures
        r@ == date_text(d),
{
    chrono::NaiveDate::from_ymd_opt(d.year, d.month, d.day).unwrap().to_string()
}

/// Whether a backfill from `start` to `end` has days to fill, and how many:
/// `end - start` in days; a start not before `end` is an error.
pub open spec fn backfill_days(start: Date, end: Date) -> Result<i64, ErrorView> {
    if !date_before(start, end) {
        Err(
            ErrorView::Other(
                "nothing to backfill — start date "@ + date_text(start)
                    + " is not before yesterday"@,
            ),
        )
    } else {
        Ok(days_between(end, start))
    }
}

/// Checks that a backfill from `start` to `end` has days to fill, and counts them.
pub fn check_backfill(start: Date, end: Date) -> (r: Result<i64, WitError>)
    requires
        start.valid(),
        end.valid(),
    ensures
        match backfill_days(start, end) {
            Ok(n) => r == Ok::<i64, WitError>(n),
            Err(e) => r matches Err(re) && re@ == e,
        },
{
    if !is_before(start, end) {
        let mut m = String::from_str("nothing to backfill — start date ");
        let d = display_date(start);
        m.append(d.as_str());
        m.append(" is not before yesterday");
        return Err(WitError::Other(m));
    }
    Ok(days_from(end, start))
}

/// The column heading of a location's past snapshot in a diff: "<name> (past)".
pub fn past_label(name: &str) -> (r: String)
    ensures
        r@ == name@ + " (past)"@,
{
    let mut r = String::from_str(name);
    r.append(" (past)");
    r
}

/// The column heading of a location's current snapshot in a diff: "<name> (now)".
pub fn now_label(name: &str) -> (r: String)
    ensures
        r@ == name@ + " (now)"@,
{
    let mut r = String::from_str(name);
    r.append(" (now)");
    r
}

/// The column heading of a snapshot on a given date: "<name> (YYYY-MM-DD)".
pub fn dated_label(name: &str, date: Date) -> (r: String)
    requires
        date.valid(),
    ensures
        r@ == name@ + " ("@ + date_text(date) + ")"@,
{
    let mut r = String::from_str(name);
    r.append(" (");
    let d = format_ymd(date);
    r.append(d.as_str());
    r.append(")");
    r
}

} // verus!
