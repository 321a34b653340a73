use culler_core::scan::analysis::{analysis_hash, tally_analysis};

#[test]
fn stored_hash_is_used_and_not_stored_again() {
    assert_eq!(analysis_hash(Some([1; 32]), None), Some(([1; 32], None)));
    assert_eq!(analysis_hash(Some([1; 32]), Some([2; 32])), Some(([1; 32], None)));
}

#[test]
fn files_without_a_hash_get_the_one_just_read() {
    assert_eq!(analysis_hash(None, Some([5; 32])), Some(([5; 32], Some([5; 32]))));
}

#[test]
fn unreadable_files_without_a_hash_stay_pending() {
    assert_eq!(analysis_hash(None, None), None);
}

#[test]
fn tally_counts_rows_written_and_every_kind_of_error() {
    assert_eq!(tally_analysis(&[]), (0, 0));
    assert_eq!(tally_analysis(&[Some(false), Some(true), None, Some(false)]), (3, 2));
    assert_eq!(tally_analysis(&[None, None]), (0, 2));
}
