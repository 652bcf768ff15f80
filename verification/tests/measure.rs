use quanergy_client::measure::{clamp_top_count, measurement_status, median_indices};

#[test]
fn top_count_is_clamped() {
    assert_eq!(clamp_top_count(0, 5), 1);
    assert_eq!(clamp_top_count(3, 5), 3);
    assert_eq!(clamp_top_count(9, 5), 5);
}

#[test]
fn median_positions() {
    // Top 10% of a hundred values: ten values, median of the fifth and sixth.
    assert_eq!(median_indices(10), (4, 5));
    // Three values: the second.
    assert_eq!(median_indices(3), (1, 1));
    assert_eq!(median_indices(1), (0, 0));
}

#[test]
fn measurement_statuses() {
    assert_eq!(measurement_status(2, 5, true), "insufficient_points");
    assert_eq!(measurement_status(5, 5, true), "ok");
    assert_eq!(measurement_status(5, 5, false), "no_valid_z");
}
