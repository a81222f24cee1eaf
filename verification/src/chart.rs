//! Chart planning: which tracked locations to chart, how much history to
//! read, and how wide to draw.

use vstd::prelude::*;

use crate::config::{entry_index, slug_of, slugify, ConfigView, WitConfig};
use crate::date::{days_between, days_from, today, Date};
use crate::error::{ErrorView, WitError};
use crate::history::index_view;
use crate::query::{parse_time_token, resolved, time_token};

verus! {

/// `n` limited to `lo..=hi` as `n.max(lo).min(hi)` does.
pub open spec fn clamp(n: int, lo: int, hi: int) -> int {
    let m = if n < lo { lo } else { n };
    if m > hi { hi } else { m }
}

/// How many history entries a chart over the time range `range` reads on
/// the day `today`: the number of days back the range reaches, limited to
/// 10..=365, or 30 when `range` is not a time token. `None` where resolving
/// the range overflows.
pub open spec fn entries_for(range: Seq<char>, today: Date) -> Option<int> {
    match time_token(range) {
        Ok(t) => match resolved(t, today) {
            Some(d) => Some(clamp(abs_i64(days_between(today, d)), 10, 365)),
            None => None,
        },
        Err(_) => Some(30),
    }
}

/// The magnitude of an `i64`, as `i64::unsigned_abs` gives it.
pub open spec fn abs_i64(v: i64) -> int {
    if v < 0 { -(v as int) } else { v as int }
}

/// How many history entries a chart over `range` reads on the day `today`.
pub fn estimate_entries_on(range: &str, today: Date) -> (r: Option<usize>)
    requires
        today.valid(),
    ensures
        match entries_for(range@, today) {
            Some(n) => r == Some(n as usize),
            None => r is None,
        },
{
    match parse_time_token(range) {
        Ok(spec) => match spec.resolve_on(today) {
            Some(date) => {
                let days = days_from(today, date);
                let a: u64 = if days < 0 {
                    if days == i64::MIN { 9223372036854775808u64 } else { (-days) as u64 }
                } else {
                    days as u64
                };
                let n: u64 = if a < 10 { 10 } else { a };
                let n: u64 = if n > 365 { 365 } else { n };
                Some(n as usize)
            },
            None => None,
        },
        Err(_) => Some(30),
    }
}

/// How many history entries a chart over `range` reads today.
pub fn estimate_entries(range: &str) -> (r: Option<usize>)
    ensures
        exists|t: Date|
            t.valid() && match entries_for(range@, t) {
                Some(n) => r == Some(n as usize),
                None => r is None,
            },
{
    let t = today();
    estimate_entries_on(range, t)
}

/// The tracked locations a chart covers: every tracked location when no
/// names are given, else the location each name's slug selects, in the
/// order given; the first name that selects nothing is an error, and so is
/// an empty selection.
pub open spec fn chart_selection(c: ConfigView, names: Seq<Seq<char>>) -> Result<Seq<int>, ErrorView> {
    let sel = if names.len() == 0 {
        Ok(Seq::new(c.locations.len(), |i: int| i))
    } else {
        select_names(c, names, 0)
    };
    match sel {
        Ok(v) => if v.len() == 0 { Err(ErrorView::NoLocations) } else { Ok(v) },
        Err(e) => Err(e),
    }
}

/// The locations selected by `names[k..]`, or the error for the first name
/// that selects nothing.
pub open spec fn select_names(c: ConfigView, names: Seq<Seq<char>>, k: int) -> Result<Seq<int>, ErrorView>
    decreases names.len() - k,
{
    if k < 0 || k >= names.len() {
        Ok(seq![])
    } else {
        let i = entry_index(c, slug_of(names[k]));
        if i == -1 {
            Err(ErrorView::LocationNotFound(names[k]))
        } else {
            match select_names(c, names, k + 1) {
                Ok(rest) => Ok(seq![i] + rest),
                Err(e) => Err(e),
            }
        }
    }
}

/// The tracked locations (by index) that a chart of `names` covers.
pub fn chart_locations(config: &WitConfig, names: &[String]) -> (r: Result<Vec<usize>, WitError>)
    ensures
        match chart_selection(config@, names@.map_values(|n: String| n@)) {
            Ok(v) => r matches Ok(rv) && rv@.map_values(|i: usize| i as int) == v,
            Err(e) => r matches Err(re) && re@ == e,
        },
{
    let ghost nv = names@.map_values(|n: String| n@);
    let mut sel: Vec<usize> = Vec::new();
    if names.len() == 0 {
        let mut i: usize = 0;
        while i < config.locations.len()
            invariant
                i <= config.locations.len(),
                sel@.len() == i,
                forall|j: int| 0 <= j < i ==> sel@[j] == j,
                sel@.map_values(|j: usize| j as int) == Seq::new(i as nat, |j: int| j),
            decreases config.locations.len() - i,
        {
            sel.push(i);
            i = i + 1;
            assert(sel@.map_values(|j: usize| j as int) =~= Seq::new(i as nat, |j: int| j));
        }
        assert(Seq::new(config@.locations.len(), |j: int| j) =~= Seq::new(
            config.locations.len() as nat,
            |j: int| j,
        ));
    } else {
        let mut k: usize = 0;
        while k < names.len()
            invariant
                k <= names.len(),
                nv == names@.map_values(|n: String| n@),
                forall|j: int| 0 <= j < k ==> entry_index(config@, slug_of(#[trigger] nv[j])) != -1,
                forall|j: int| 0 <= j < k ==> (#[trigger] sel@[j]) as int == entry_index(config@, slug_of(nv[j])),
                sel@.len() == k,
                select_names(config@, nv, 0) == (match select_names(config@, nv, k as int) {
                    Ok(rest) => Ok(sel@.map_values(|j: usize| j as int) + rest),
                    Err(e) => Err(e),
                }),
            decreases names.len() - k,
        {
            let slug = slugify(names[k].as_str());
            match config.find_location(slug.as_str()) {
                Some(i) => {
                    let ghost before = sel@;
                    sel.push(i);
                    assert(sel@.map_values(|j: usize| j as int) =~= before.map_values(|j: usize| j as int).push(i as int));
                    assert forall|rest: Seq<int>| true implies before.map_values(|j: usize| j as int) + (seq![i as int] + rest) =~= sel@.map_values(|j: usize| j as int) + rest by {}
                },
                None => {
                    return Err(WitError::LocationNotFound(names[k].clone()));
                },
            }
            k = k + 1;
        }
        assert(select_names(config@, nv, names.len() as int) == Ok::<Seq<int>, ErrorView>(seq![]));
        assert(sel@.map_values(|j: usize| j as int) + seq![] =~= sel@.map_values(|j: usize| j as int));
    }
    if sel.len() == 0 {
        return Err(WitError::NoLocations);
    }
    Ok(sel)
}

/// The width of a single-series chart for a longest series of `max_points`
/// points, and the width in cells of an overlay chart.
pub open spec fn chart_widths(max_points: int) -> (int, int) {
    let w = clamp(max_points * 10, 60, 120);
    (w, clamp(w / 2, 30, 80))
}

/// The chart widths for a longest series of `max_points` points.
pub fn chart_width(max_points: usize) -> (r: (u32, u16))
    requires
        max_points * 10 <= usize::MAX,
    ensures
        r.0 as int == chart_widths(max_points as int).0,
        r.1 as int == chart_widths(max_points as int).1,
{
    let w = max_points * 10;
    let w = if w < 60 { 60 } else { w };
    let w = if w > 120 { 120 } else { w };
    let o = w / 2;
    let o = if o < 30 { 30 } else { o };
    let o = if o > 80 { 80 } else { o };
    (w as u32, o as u16)
}

/// The locations, among the first `k`, that a chart skips for having fewer
/// than two snapshots in their history.
pub open spec fn too_few_upto(history: Seq<usize>, k: int) -> Seq<int>
    decreases k,
{
    if k <= 0 {
        seq![]
    } else {
        let rest = too_few_upto(history, k - 1);
        if history[k - 1] < 2 { rest.push(k - 1) } else { rest }
    }
}

/// The locations, among the first `k`, that a chart draws: at least two
/// snapshots in their history, of which at least one could be read.
pub open spec fn charted_upto(history: Seq<usize>, points: Seq<usize>, k: int) -> Seq<int>
    decreases k,
{
    if k <= 0 {
        seq![]
    } else {
        let rest = charted_upto(history, points, k - 1);
        if history[k - 1] >= 2 && points[k - 1] > 0 { rest.push(k - 1) } else { rest }
    }
}

/// The skipped locations are exactly those with fewer than two history
/// entries, and the drawn ones exactly those with at least two entries of
/// which at least one snapshot was read; both lists are in increasing order.
pub proof fn law_series_split(history: Seq<usize>, points: Seq<usize>, k: int)
    requires
        0 <= k <= history.len(),
        history.len() == points.len(),
    ensures
        forall|i: int| 0 <= i < k ==> (too_few_upto(history, k).contains(i) <==> history[i] < 2),
        forall|i: int| 0 <= i < k ==> (charted_upto(history, points, k).contains(i) <==> (history[i]
            >= 2 && points[i] > 0)),
        forall|j: int| 0 <= j < too_few_upto(history, k).len() ==> 0 <= #[trigger] too_few_upto(history, k)[j] < k,
        forall|j: int| 0 <= j < charted_upto(history, points, k).len() ==> 0 <= #[trigger] charted_upto(history, points, k)[j] < k,
        forall|a: int, b: int|
            0 <= a < b < too_few_upto(history, k).len() ==> too_few_upto(history, k)[a] < too_few_upto(history, k)[b],
        forall|a: int, b: int|
            0 <= a < b < charted_upto(history, points, k).len() ==> charted_upto(history, points, k)[a]
                < charted_upto(history, points, k)[b],
    decreases k,
{
    if k > 0 {
        law_series_split(history, points, k - 1);
        let t0 = too_few_upto(history, k - 1);
        let c0 = charted_upto(history, points, k - 1);
        let t = too_few_upto(history, k);
        let c = charted_upto(history, points, k);
        assert forall|i: int| 0 <= i < k implies (t.contains(i) <==> history[i] < 2) by {
            if i < k - 1 {
                if t.contains(i) {
                    let j = choose|j: int| 0 <= j < t.len() && t[j] == i;
                    if j < t0.len() {
                        assert(t0[j] == i);
                    }
                }
                if t0.contains(i) {
                    let j = choose|j: int| 0 <= j < t0.len() && t0[j] == i;
                    assert(t[j] == i);
                }
            } else {
                if history[i] < 2 {
                    assert(t[t.len() - 1] == i);
                } else if t.contains(i) {
                    let j = choose|j: int| 0 <= j < t.len() && t[j] == i;
                    assert(t0[j] == i);
                }
            }
        }
        assert forall|i: int| 0 <= i < k implies (c.contains(i) <==> (history[i] >= 2 && points[i] > 0)) by {
            if i < k - 1 {
                if c.contains(i) {
                    let j = choose|j: int| 0 <= j < c.len() && c[j] == i;
                    if j < c0.len() {
                        assert(c0[j] == i);
                    }
                }
                if c0.contains(i) {
                    let j = choose|j: int| 0 <= j < c0.len() && c0[j] == i;
                    assert(c[j] == i);
                }
            } else {
                if history[i] >= 2 && points[i] > 0 {
                    assert(c[c.len() - 1] == i);
                } else if c.contains(i) {
                    let j = choose|j: int| 0 <= j < c.len() && c[j] == i;
                    assert(c0[j] == i);
                }
            }
        }
    }
}

/// Which locations a chart skips and which it draws, given for each the
/// number of history entries found and of snapshots read from them: the
/// skipped ones (fewer than two entries), and the drawn ones, or
/// `NoSnapshots` when there are none to draw.
pub fn plan_series(history: &[usize], points: &[usize]) -> (r: (Vec<usize>, Result<Vec<usize>, WitError>))
    requires
        history.len() == points.len(),
    ensures
        index_view(r.0@) == too_few_upto(history@, history.len() as int),
        charted_upto(history@, points@, history.len() as int).len() == 0 ==> (r.1 matches Err(e)
            && e@ == ErrorView::NoSnapshots),
        charted_upto(history@, points@, history.len() as int).len() > 0 ==> (r.1 matches Ok(c)
            && index_view(c@) == charted_upto(history@, points@, history.len() as int)),
        forall|i: int| 0 <= i < history.len() ==> (index_view(r.0@).contains(i) <==> history[i] < 2),
        r.1 is Err <==> forall|i: int| 0 <= i < history.len() ==> !(history[i] >= 2 && points[i] > 0),
        r.1 matches Ok(c) ==> forall|i: int|
            0 <= i < history.len() ==> (index_view(c@).contains(i) <==> (history[i] >= 2 && points[i] > 0)),
{
    let mut skipped: Vec<usize> = Vec::new();
    let mut charted: Vec<usize> = Vec::new();
    let mut i: usize = 0;
    while i < history.len()
        invariant
            history.len() == points.len(),
            i <= history.len(),
            index_view(skipped@) == too_few_upto(history@, i as int),
            index_view(charted@) == charted_upto(history@, points@, i as int),
        decreases history.len() - i,
    {
        let ghost s0 = skipped@;
        let ghost c0 = charted@;
        if history[i] < 2 {
            skipped.push(i);
            assert(index_view(skipped@) =~= index_view(s0).push(i as int));
        } else if points[i] > 0 {
            charted.push(i);
            assert(index_view(charted@) =~= index_view(c0).push(i as int));
        }
        i = i + 1;
    }
    proof {
        law_series_split(history@, points@, history.len() as int);
        let cu = charted_upto(history@, points@, history.len() as int);
        if cu.len() > 0 {
            assert(cu.contains(cu[0]));
            let i0 = cu[0];
            assert(0 <= i0 < history.len());
            assert(history[i0] >= 2 && points[i0] > 0);
        } else {
            assert forall|i: int| 0 <= i < history.len() implies !(history[i] >= 2 && points[i] > 0) by {
                if history[i] >= 2 && points[i] > 0 {
                    assert(cu.contains(i));
                }
            }
        }
    }
    if charted.len() == 0 {
        (skipped, Err(WitError::NoSnapshots))
    } else {
        (skipped, Ok(charted))
    }
}

} // verus!
