use ribbit::history::{is_expired_log, newest_first, window_days};

fn s(v: &[&str]) -> Vec<String> {
    v.iter().map(|x| x.to_string()).collect()
}

#[test]
fn sort_by_ts_descending_keeps_today_above_yesterday() {
    let ts = s(&[
        "2026-05-20T09:00:00+03:00",
        "2026-05-20T18:00:00+03:00",
        "2026-05-21T08:00:00+03:00",
        "2026-05-21T07:00:00+03:00",
    ]);
    assert_eq!(newest_first(&ts, 10), vec![2, 3, 1, 0]);
    assert_eq!(newest_first(&ts, 2), vec![2, 3]);
    assert_eq!(newest_first(&ts, 0), Vec::<usize>::new());
}

#[test]
fn equal_timestamps_keep_their_file_order() {
    let ts = s(&["b", "a", "b", "", "a"]);
    assert_eq!(newest_first(&ts, usize::MAX), vec![0, 2, 1, 4, 3]);
}

#[test]
fn only_day_files_outside_the_window_expire() {
    let keep = s(&["2026-05-21", "2026-05-20"]);
    assert!(!is_expired_log("2026-05-21.jsonl", &keep));
    assert!(is_expired_log("2026-05-19.jsonl", &keep));
    assert!(!is_expired_log("debug.log", &keep));
    assert!(!is_expired_log("2026-05-19.json", &keep));
}

#[test]
fn the_window_keeps_at_least_today() {
    assert_eq!(window_days(0), 1);
    assert_eq!(window_days(-4), 1);
    assert_eq!(window_days(7), 7);
}
