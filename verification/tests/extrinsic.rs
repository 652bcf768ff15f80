use quanergy_client::extrinsic::{read_correspondence_line, CorrespondenceLine};

fn texts(list: &[&str]) -> Vec<String> {
    list.iter().map(|s| s.to_string()).collect()
}

#[test]
fn blank_and_comment_lines_are_skipped() {
    assert_eq!(read_correspondence_line("", 1), CorrespondenceLine::Skip);
    assert_eq!(read_correspondence_line("   \t", 2), CorrespondenceLine::Skip);
    assert_eq!(read_correspondence_line("  # sensor_x,sensor_y", 3), CorrespondenceLine::Skip);
}

#[test]
fn six_values_are_trimmed_in_order() {
    assert_eq!(
        read_correspondence_line(" 1.0, 2.5 ,-3,4,5 , 6 \r", 7),
        CorrespondenceLine::Values(texts(&["1.0", "2.5", "-3", "4", "5", "6"]))
    );
}

#[test]
fn other_value_counts_are_refused_with_the_line_number() {
    assert_eq!(
        read_correspondence_line("1,2,3", 12),
        CorrespondenceLine::Refused("line 12: expected 6 comma-separated values, got 3".to_string())
    );
    assert_eq!(
        read_correspondence_line("1,2,3,4,5,6,", 4),
        CorrespondenceLine::Refused("line 4: expected 6 comma-separated values, got 7".to_string())
    );
}

#[test]
fn empty_values_still_count() {
    assert_eq!(
        read_correspondence_line(",,,,,", 1),
        CorrespondenceLine::Values(texts(&["", "", "", "", "", ""]))
    );
}
