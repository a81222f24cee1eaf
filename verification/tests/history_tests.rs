use wit::chart::plan_series;
use wit::error::WitError;
use wit::history::{commit_at_date, history_selection};

#[test]
fn history_takes_the_first_touching_commits() {
    let t = [true, false, true, true, false, true];
    assert_eq!(history_selection(&t, 2), vec![0, 2]);
    assert_eq!(history_selection(&t, 10), vec![0, 2, 3, 5]);
    assert_eq!(history_selection(&t, 0), Vec::<usize>::new());
    assert_eq!(history_selection(&[], 5), Vec::<usize>::new());
    assert_eq!(history_selection(&[true, true, true], 3), vec![0, 1, 2]);
}

#[test]
fn commit_at_date_picks_first_fitting_commit() {
    let times = [300, 250, 200, 150, 100];
    let touches = [true, true, false, true, true];
    assert_eq!(commit_at_date(&times, &touches, 1000), Some(0));
    assert_eq!(commit_at_date(&times, &touches, 220), Some(3));
    assert_eq!(commit_at_date(&times, &touches, 250), Some(1));
    assert_eq!(commit_at_date(&times, &touches, 99), None);
    assert_eq!(commit_at_date(&times, &[false; 5], 1000), None);
}

#[test]
fn chart_skips_short_histories() {
    let (skipped, charted) = plan_series(&[5, 1, 3, 0, 4], &[5, 1, 0, 0, 2]);
    assert_eq!(skipped, vec![1, 3]);
    assert_eq!(charted, Ok(vec![0, 4]));
    let (skipped, charted) = plan_series(&[1, 2], &[1, 0]);
    assert_eq!(skipped, vec![0]);
    assert_eq!(charted, Err(WitError::NoSnapshots));
    let (skipped, charted) = plan_series(&[], &[]);
    assert!(skipped.is_empty());
    assert_eq!(charted, Err(WitError::NoSnapshots));
}
