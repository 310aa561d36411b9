use dfs_server::metadata::detect_metadata_write_seq_gap;

#[test]
fn no_gap_for_a_normal_standalone_push() {
    assert_eq!(detect_metadata_write_seq_gap(5, 6, 6), None);
}

#[test]
fn no_gap_for_a_legitimate_coalesced_push() {
    assert_eq!(detect_metadata_write_seq_gap(5, 6, 7), None);
}

#[test]
fn no_gap_on_brand_new_file_first_push() {
    assert_eq!(detect_metadata_write_seq_gap(0, 1, 1), None);
}

#[test]
fn detects_a_genuine_gap() {
    assert_eq!(detect_metadata_write_seq_gap(5, 8, 8), Some((6, 7)));
}

#[test]
fn detects_a_partially_coalesced_gap() {
    assert_eq!(detect_metadata_write_seq_gap(5, 7, 8), Some((6, 6)));
}

#[test]
fn write_seq_zero_is_never_flagged() {
    assert_eq!(detect_metadata_write_seq_gap(0, 5, 0), None);
}

#[test]
fn stale_resend_is_not_a_gap() {
    assert_eq!(detect_metadata_write_seq_gap(10, 5, 5), None);
}

#[test]
fn the_highest_sequence_leaves_no_room_for_a_gap() {
    assert_eq!(detect_metadata_write_seq_gap(u64::MAX, u64::MAX, u64::MAX), None);
}
