//! Which commits of the journal's history a walk reports: the decisions
//! made over each commit's time and whether it touches the path asked for.

use vstd::prelude::*;

verus! {

/// The indices `i` with `touches[i]`, in increasing order.
pub open spec fn touching(touches: Seq<bool>) -> Seq<int>
    decreases touches.len(),
{
    if touches.len() == 0 {
        seq![]
    } else {
        let rest = touching(touches.drop_last());
        if touches.last() { rest.push(touches.len() - 1) } else { rest }
    }
}

/// The indices of a history selection as integers.
pub open spec fn index_view(v: Seq<usize>) -> Seq<int> {
    v.map_values(|x: usize| x as int)
}

/// The touching indices of a prefix are a prefix of the touching indices,
/// and every touching index lies in range.
proof fn lemma_touching_prefix(t: Seq<bool>, i: int)
    requires
        0 <= i <= t.len(),
    ensures
        touching(t.take(i)).len() <= touching(t).len(),
        touching(t).take(touching(t.take(i)).len() as int) == touching(t.take(i)),
        forall|k: int| 0 <= k < touching(t).len() ==> 0 <= #[trigger] touching(t)[k] < t.len(),
    decreases t.len(),
{
    let tt = touching(t);
    if t.len() > 0 {
        let d = t.drop_last();
        let td = touching(d);
        lemma_touching_prefix(d, d.len() as int);
        assert(tt.take(td.len() as int) =~= td);
        if i < t.len() {
            assert(t.take(i) =~= d.take(i));
            lemma_touching_prefix(d, i);
            let tp = touching(d.take(i));
            assert(tt.take(tp.len() as int) =~= td.take(tp.len() as int));
        } else {
            assert(t.take(i) =~= t);
            assert(tt.take(tt.len() as int) =~= tt);
        }
    } else {
        assert(t.take(i) =~= t);
        assert(tt.take(0) =~= tt);
    }
}

/// The touching indices are exactly the indices whose commit touches the
/// path, each once, in increasing order.
pub proof fn law_touching(t: Seq<bool>)
    ensures
        forall|k: int| 0 <= k < touching(t).len() ==> 0 <= #[trigger] touching(t)[k] < t.len() && t[touching(t)[k]],
        forall|i: int| 0 <= i < t.len() && #[trigger] t[i] ==> touching(t).contains(i),
        forall|a: int, b: int| 0 <= a < b < touching(t).len() ==> touching(t)[a] < touching(t)[b],
    decreases t.len(),
{
    if t.len() > 0 {
        let d = t.drop_last();
        law_touching(d);
        let td = touching(d);
        let tt = touching(t);
        assert forall|k: int| 0 <= k < tt.len() implies 0 <= #[trigger] tt[k] < t.len() && t[tt[k]] by {
            if k < td.len() {
                assert(tt[k] == td[k]);
                assert(t[td[k]] == d[td[k]]);
            }
        }
        assert forall|i: int| 0 <= i < t.len() && #[trigger] t[i] implies tt.contains(i) by {
            if i < t.len() - 1 {
                assert(d[i] == t[i]);
                assert(td.contains(i));
                let j = choose|j: int| 0 <= j < td.len() && td[j] == i;
                assert(tt[j] == i);
            } else {
                assert(tt[tt.len() - 1] == i);
            }
        }
    }
}

/// The commits a history walk reports: the first `max_count` of those that
/// touch the path (every commit, where no path is asked for), in walk order.
pub fn history_selection(touches: &[bool], max_count: usize) -> (r: Vec<usize>)
    ensures
        index_view(r@) == touching(touches@).take(
            if max_count < touching(touches@).len() { max_count as int } else { touching(touches@).len() as int },
        ),
        r@.len() <= max_count,
        forall|k: int| 0 <= k < r@.len() ==> (#[trigger] r@[k]) < touches@.len() && touches@[r@[k] as int],
        forall|a: int, b: int| 0 <= a < b < r@.len() ==> r@[a] < r@[b],
        forall|i: int|
            0 <= i < touches@.len() && #[trigger] touches@[i] && (r@.len() < max_count || (r@.len() > 0 && i <= r@.last()))
                ==> r@.contains(i as usize),
{
    let ghost t = touches@;
    let mut r: Vec<usize> = Vec::new();
    let mut i: usize = 0;
    while i < touches.len() && r.len() < max_count
        invariant
            t == touches@,
            i <= touches.len(),
            r.len() <= max_count,
            index_view(r@) == touching(t.take(i as int)),
        decreases touches.len() - i,
    {
        let ghost r0 = r@;
        assert(t.take(i as int + 1).drop_last() =~= t.take(i as int));
        if touches[i] {
            r.push(i);
            assert(index_view(r@) =~= index_view(r0).push(i as int));
        }
        i = i + 1;
    }
    proof {
        law_touching(t);
        lemma_touching_prefix(t, i as int);
        if i == touches.len() {
            assert(t.take(i as int) =~= t);
            assert(touching(t).take(touching(t).len() as int) =~= touching(t));
        }
        let tt = touching(t);
        let n = r@.len() as int;
        assert forall|k: int| 0 <= k < n implies r@[k] as int == tt[k] by {
            assert(index_view(r@)[k] == r@[k] as int);
        }
        assert(index_view(r@).len() == n);
        assert(n <= tt.len());
        assert forall|k: int| 0 <= k < n implies (#[trigger] r@[k]) < t.len() && t[r@[k] as int] by {
            assert(r@[k] as int == tt[k]);
        }
        assert forall|a: int, b: int| 0 <= a < b < n implies r@[a] < r@[b] by {
            assert(r@[a] as int == tt[a]);
            assert(r@[b] as int == tt[b]);
        }
        assert forall|i: int|
            0 <= i < t.len() && #[trigger] t[i] && (r@.len() < max_count || (r@.len() > 0 && i
                <= r@.last())) implies r@.contains(i as usize) by {
            assert(tt.contains(i));
            let j = choose|j: int| 0 <= j < tt.len() && tt[j] == i;
            if j >= n {
                assert(r@.len() >= max_count);
                assert(tt[n - 1] < tt[j]);
                assert(r@[n - 1] as int == tt[n - 1]);
            }
            assert(r@[j] as int == i);
        }
    }
    r
}

/// Whether commit `i` is one a walk to `target` may stop at: made at or
/// before the target time, and touching the path.
pub open spec fn fits(times: Seq<i64>, touches: Seq<bool>, target: i64, i: int) -> bool {
    times[i] <= target && touches[i]
}

/// The commit a walk to a point in time stops at: the first, in walk order,
/// that was made at or before `target` and touches the path.
pub fn commit_at_date(times: &[i64], touches: &[bool], target: i64) -> (r: Option<usize>)
    requires
        times.len() == touches.len(),
    ensures
        match r {
            Some(i) => i < times.len() && fits(times@, touches@, target, i as int) && forall|j: int|
                0 <= j < i ==> !fits(times@, touches@, target, j),
            None => forall|j: int| 0 <= j < times.len() ==> !fits(times@, touches@, target, j),
        },
        r matches Some(i) ==> times@[i as int] <= target && touches@[i as int],
        r matches Some(i) ==> forall|j: int| 0 <= j < i ==> !(#[trigger] times@[j] <= target && touches@[j]),
        r is None ==> forall|j: int| 0 <= j < times.len() ==> !(#[trigger] times@[j] <= target && touches@[j]),
{
    let mut i: usize = 0;
    while i < times.len()
        invariant
            times.len() == touches.len(),
            i <= times.len(),
            forall|j: int| 0 <= j < i ==> !(#[trigger] times@[j] <= target && touches@[j]),
        decreases times.len() - i,
    {
        if times[i] <= target && touches[i] {
            return Some(i);
        }
        i = i + 1;
    }
    None
}

} // verus!
