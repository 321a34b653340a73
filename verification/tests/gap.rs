use culler_core::cluster::gap::{gap_groups, DEFAULT_EVENT_GAP_SECS};

#[test]
fn splits_on_gaps_and_keeps_chronology() {
    // Morning event, then a 3h gap, then an afternoon event, plus a
    // lone evening shot. Input deliberately unsorted.
    let times = [
        (3, 11_000),
        (1, 10_000),
        (2, 10_500),
        (4, 25_000),
        (5, 25_400),
        (6, 60_000),
    ];
    let groups = gap_groups(&times, DEFAULT_EVENT_GAP_SECS);
    assert_eq!(groups, vec![vec![1, 2, 3], vec![4, 5], vec![6]]);
}

#[test]
fn boundary_gap_stays_in_the_same_event() {
    let gap = DEFAULT_EVENT_GAP_SECS;
    let times = [(1, 0), (2, gap), (3, 2 * gap + 1)];
    let groups = gap_groups(&times, gap);
    assert_eq!(groups, vec![vec![1, 2], vec![3]]);
}

#[test]
fn empty_input_gives_no_groups() {
    assert!(gap_groups(&[], DEFAULT_EVENT_GAP_SECS).is_empty());
}

#[test]
fn equal_times_order_by_id_and_every_photo_lands_once() {
    let times = [(9, 500), (2, 500), (5, 100), (7, 100_000)];
    let groups = gap_groups(&times, 0);
    assert_eq!(groups, vec![vec![5], vec![2, 9], vec![7]]);
    let all: Vec<i64> = groups.concat();
    assert_eq!(all, vec![5, 2, 9, 7]);
}

#[test]
fn extreme_capture_times_split_without_overflow() {
    let times = [(1, i64::MIN + 1), (2, 0), (3, i64::MAX)];
    assert_eq!(gap_groups(&times, DEFAULT_EVENT_GAP_SECS), vec![vec![1], vec![2], vec![3]]);
    assert_eq!(gap_groups(&times, i64::MAX), vec![vec![1, 2, 3]]);
}
