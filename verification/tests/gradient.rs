use bevy_react_core::filters::gradient::{check_stop_count, gap_runs, MAX_GRADIENT_STOPS};

#[test]
fn seven_stops_are_rejected() {
    assert!(check_stop_count(MAX_GRADIENT_STOPS).is_ok());
    assert!(check_stop_count(0).is_ok());
    assert_eq!(
        check_stop_count(7).unwrap_err(),
        "filter \"gradientMap\" supports at most 6 stops, got 7"
    );
}

#[test]
fn interior_runs_sit_between_positioned_neighbours() {
    // [pos, -, -, pos, -, -]: ends pinned, so runs 1..3 and 4..5.
    assert_eq!(gap_runs(&vec![true, false, false, true, false, false]), vec![(1, 3), (4, 5)]);
    // Only the ends are free: both pinned, nothing to spread.
    assert_eq!(gap_runs(&vec![false, true, false]), vec![]);
    // Nothing positioned: everything between the pinned ends.
    assert_eq!(gap_runs(&vec![false, false, false, false]), vec![(1, 3)]);
    // A single stop, and no stops.
    assert_eq!(gap_runs(&vec![false]), vec![]);
    assert_eq!(gap_runs(&vec![]), vec![]);
    // Alternating.
    assert_eq!(gap_runs(&vec![true, false, true, false, true]), vec![(1, 2), (3, 4)]);
}
