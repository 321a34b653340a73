use culler_core::api::{hex_lower, ApiError, CullerEngine, ScanProgress};
use culler_core::scan::walker::WalkOutcome;
use culler_core::FoundFile;

#[test]
fn hex_is_lowercase_two_digits_per_byte() {
    assert_eq!(hex_lower(&[0x00, 0x0f, 0xa0, 0xff]), "000fa0ff");
    assert_eq!(hex_lower(&[]), "");
}

#[test]
fn fresh_engine_has_no_dupes_clusters_or_models() {
    let mut engine = CullerEngine::open(":memory:".to_owned()).unwrap();
    assert!(engine.dupes().unwrap().is_empty());
    assert!(engine.cluster_near(8, 10).unwrap().is_empty());
    assert!(engine.grid_items(0, 50).unwrap().is_empty());
    assert!(engine.images_needing_faces().unwrap().is_empty());
    assert!(!engine.has_models());
}

#[test]
fn attaching_models_follows_the_load_outcome() {
    let mut engine = CullerEngine::open(":memory:".to_owned()).unwrap();
    let err = engine
        .attach_models("/models".to_owned(), Err("vision_model.onnx: not found".to_owned()))
        .unwrap_err();
    assert_eq!(
        err,
        ApiError::Engine {
            message: "/models: vision_model.onnx: not found".to_owned()
        }
    );
    assert!(!engine.has_models());
    engine.attach_models("/models".to_owned(), Ok(())).unwrap();
    assert!(engine.has_models());
}

#[test]
fn dupes_cross_the_interface_with_hex_hashes() {
    let mut engine = CullerEngine::open(":memory:".to_owned()).unwrap();
    let walk = WalkOutcome {
        files: vec![
            FoundFile { path: "/d/a.jpg".to_owned(), size: 10, mtime: 5 },
            FoundFile { path: "/d/b.jpg".to_owned(), size: 10, mtime: 3 },
        ],
        errors: 0,
    };
    let inner = engine.inner_mut();
    inner.record_walk("/d", &walk).unwrap();
    let ids: Vec<i64> = inner.files_needing_analysis().unwrap().iter().map(|t| t.id).collect();
    inner.store_hashes(&[(ids[0], [0xab; 32]), (ids[1], [0xab; 32])]).unwrap();
    let dupes = engine.dupes().unwrap();
    assert_eq!(dupes.len(), 1);
    assert_eq!(dupes[0].hash_hex, "ab".repeat(32));
    assert_eq!(dupes[0].files[0].path, "/d/b.jpg");
    assert_eq!(dupes[0].reclaimable, 10);
}

#[test]
fn progress_events_map_one_to_one() {
    let p = ScanProgress::from_core(culler_core::ScanProgress::Hashing { done: 3, total: 9 });
    assert_eq!(p, ScanProgress::Hashing { done: 3, total: 9 });
}
