use sjmb_matrix::{window_result, window_start, AddUrlRun, AddUrlStep, CheckUrl, RETRY_CNT, RETRY_SLEEP};

/// Runs an insert sequence against a store whose attempts come out as listed.
fn run(update_change: bool, outcomes: &[Option<u64>]) -> (AddUrlRun, usize, usize) {
    let mut r = AddUrlRun::new(update_change);
    let mut next = 0;
    let mut sleeps = 0;
    let mut marks = 0;
    loop {
        match r.step {
            AddUrlStep::Insert => {
                let o = outcomes.get(next).copied().flatten();
                next += 1;
                r.record_insert(o);
            }
            AddUrlStep::Backoff => {
                sleeps += 1;
                r.record_backoff();
            }
            AddUrlStep::MarkChange => {
                marks += 1;
                r.record_marked();
            }
            AddUrlStep::Done => return (r, sleeps, marks),
        }
    }
}

#[test]
fn retry_constants() {
    assert_eq!(RETRY_CNT, 5);
    assert_eq!(RETRY_SLEEP, 1);
}

#[test]
fn insert_succeeds_first_time() {
    let (r, sleeps, marks) = run(true, &[Some(1)]);
    assert_eq!(r.rows, 1);
    assert_eq!(r.attempts, 1);
    assert!(r.inserted);
    assert!(!r.gave_up());
    assert_eq!(sleeps, 0);
    assert_eq!(marks, 1);
}

#[test]
fn insert_succeeds_after_failures() {
    for k in 0..5 {
        let mut outcomes = vec![None; k];
        outcomes.push(Some(1));
        let (r, sleeps, marks) = run(true, &outcomes);
        assert_eq!(r.rows, 1);
        assert_eq!(r.attempts, k + 1);
        assert_eq!(sleeps, k);
        assert_eq!(marks, 1);
        assert!(!r.gave_up());
    }
}

#[test]
fn insert_gives_up_after_five_failures() {
    let (r, sleeps, marks) = run(true, &[None, None, None, None, None, Some(1)]);
    assert_eq!(r.rows, 0);
    assert_eq!(r.attempts, 5);
    assert!(r.gave_up());
    assert_eq!(sleeps, 4);
    assert_eq!(marks, 1);
    assert!(r.marked);
}

#[test]
fn no_change_marker_when_tracking_is_off() {
    let (ok, _, ok_marks) = run(false, &[Some(1)]);
    let (failed, _, failed_marks) = run(false, &[None; 5]);
    assert_eq!(ok_marks, 0);
    assert_eq!(failed_marks, 0);
    assert!(!ok.marked);
    assert!(!failed.marked);
    assert_eq!(ok.step, AddUrlStep::Done);
    assert_eq!(failed.step, AddUrlStep::Done);
}

#[test]
fn change_marker_set_after_success_and_after_giving_up() {
    assert!(run(true, &[Some(1)]).0.marked);
    assert!(run(true, &[None; 5]).0.marked);
}

#[test]
fn window_result_without_row_is_zero_count() {
    let r = window_result(None);
    assert_eq!(r, CheckUrl { cnt: 0, min: None, max: None });
}

#[test]
fn window_result_keeps_row() {
    let row = CheckUrl { cnt: 3, min: Some(10), max: Some(20) };
    assert_eq!(window_result(Some(row)), row);
}

#[test]
fn window_start_subtracts_expiry() {
    assert_eq!(window_start(1000, 300), Some(700));
    assert_eq!(window_start(0, -5), Some(5));
    assert_eq!(window_start(i64::MIN, 1), None);
    assert_eq!(window_start(i64::MAX, -1), None);
}
