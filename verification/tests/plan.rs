use culler_core::db::candidates::CandidateFile;
use culler_core::scan::plan::{collect_hashes, needs_prehash, plan_full_hash};

fn cand(id: i64, hashed: bool) -> CandidateFile {
    CandidateFile {
        id,
        path: format!("/p/{id}.jpg"),
        already_hashed: hashed,
    }
}

#[test]
fn only_unhashed_members_of_prehash_collisions_are_full_hashed() {
    let members = vec![cand(1, false), cand(2, false), cand(3, true), cand(4, false), cand(5, false)];
    let p = |b: u8| Some([b; 32]);
    let prehashes = vec![p(1), p(2), p(1), p(1), None];
    let (targets, errors) = plan_full_hash(&members, &prehashes);
    let ids: Vec<i64> = targets.iter().map(|c| c.id).collect();
    assert_eq!(ids, vec![1, 4]);
    assert_eq!(errors, 1);
}

#[test]
fn groups_with_everything_hashed_skip_the_prehash() {
    assert!(!needs_prehash(&[cand(1, true), cand(2, true)]));
    assert!(needs_prehash(&[cand(1, true), cand(2, false)]));
    assert!(!needs_prehash(&[]));
}

#[test]
fn unreadable_files_are_counted_not_stored() {
    let (hashes, errors) = collect_hashes(&[10, 11, 12], &[Some([1; 32]), None, Some([3; 32])]);
    assert_eq!(hashes, vec![(10, [1; 32]), (12, [3; 32])]);
    assert_eq!(errors, 1);
}
