use culler_core::scan::walker::WalkOutcome;
use culler_core::{Engine, FoundFile};

fn found(path: &str, size: u64, mtime: i64) -> FoundFile {
    FoundFile {
        path: path.to_owned(),
        size,
        mtime,
    }
}

fn walk(files: Vec<FoundFile>) -> WalkOutcome {
    WalkOutcome { files, errors: 0 }
}

fn id_of(engine: &mut Engine, path: &str) -> i64 {
    engine
        .files_needing_analysis()
        .unwrap()
        .into_iter()
        .find(|t| t.path == path)
        .map(|t| t.id)
        .expect("file is recorded and pending analysis")
}

fn hash(fill: u8) -> [u8; 32] {
    [fill; 32]
}

fn library() -> Vec<FoundFile> {
    vec![
        found("/lib/kids-beach.jpg", 8192, 1_000_000_000),
        found("/lib/copy of kids-beach.jpg", 8192, 1_600_000_000),
        found("/lib/nested/kids-beach (2).jpg", 8192, 1_600_000_000),
        found("/lib/receipt.png", 1024, 1_600_000_000),
        found("/lib/receipt copy.png", 1024, 1_600_000_000),
        found("/lib/late-diff.jpg", 8192, 1_600_000_000),
        found("/lib/unique.jpg", 500, 1_600_000_000),
    ]
}

fn hash_library(engine: &mut Engine) {
    let hashes = vec![
        (id_of(engine, "/lib/kids-beach.jpg"), hash(1)),
        (id_of(engine, "/lib/copy of kids-beach.jpg"), hash(1)),
        (id_of(engine, "/lib/nested/kids-beach (2).jpg"), hash(1)),
        (id_of(engine, "/lib/receipt.png"), hash(2)),
        (id_of(engine, "/lib/receipt copy.png"), hash(2)),
        (id_of(engine, "/lib/late-diff.jpg"), hash(9)),
    ];
    engine.store_hashes(&hashes).unwrap();
}

#[test]
fn fresh_walk_adds_every_file() {
    let mut engine = Engine::open(":memory:").unwrap();
    let summary = engine.record_walk("/lib", &walk(library())).unwrap();
    assert_eq!(summary.found, 7);
    assert_eq!(summary.added, 7);
    assert_eq!(summary.updated, 0);
    assert_eq!(summary.unchanged, 0);
    assert_eq!(summary.missing, 0);
    assert_eq!(summary.hashed, 0);
}

#[test]
fn size_candidates_skip_unique_sizes() {
    let mut engine = Engine::open(":memory:").unwrap();
    engine.record_walk("/lib", &walk(library())).unwrap();
    let groups = engine.hash_candidates().unwrap();
    let sizes: Vec<u64> = groups.iter().map(|(s, _)| *s).collect();
    assert_eq!(sizes, vec![1024, 8192]);
    assert_eq!(groups[0].1.len(), 2);
    assert_eq!(groups[1].1.len(), 4);
    assert!(groups.iter().all(|(_, m)| m.iter().all(|c| !c.already_hashed)));
}

#[test]
fn dupes_group_by_hash_and_sort_by_reclaimable_bytes() {
    let mut engine = Engine::open(":memory:").unwrap();
    engine.record_walk("/lib", &walk(library())).unwrap();
    hash_library(&mut engine);
    let dupes = engine.dupes().unwrap();
    assert_eq!(dupes.len(), 2);

    let big = &dupes[0];
    assert_eq!(big.size, 8192);
    assert_eq!(big.files.len(), 3);
    assert_eq!(big.reclaimable, 2 * 8192);
    assert_eq!(big.hash, hash(1));
    assert!(big.files[0].path.ends_with("/kids-beach.jpg"), "oldest mtime is the keeper: {big:?}");

    let small = &dupes[1];
    assert_eq!(small.files.len(), 2);
    assert_eq!(small.reclaimable, 1024);
    for group in &dupes {
        for f in &group.files {
            assert!(!f.path.contains("diff") && !f.path.contains("unique"));
        }
    }
}

#[test]
fn keeper_ties_break_on_shorter_path_then_path() {
    let mut engine = Engine::open(":memory:").unwrap();
    let files = vec![
        found("/lib/deeply/nested/photo.jpg", 4096, 1_000_000_000),
        found("/lib/zz.jpg", 4096, 1_000_000_000),
        found("/lib/photo.jpg", 4096, 1_000_000_000),
        found("/lib/aa.jpg", 4096, 1_000_000_000),
    ];
    engine.record_walk("/lib", &walk(files)).unwrap();
    let hashes: Vec<(i64, [u8; 32])> = ["/lib/deeply/nested/photo.jpg", "/lib/zz.jpg", "/lib/photo.jpg", "/lib/aa.jpg"]
        .iter()
        .map(|p| (id_of(&mut engine, p), hash(5)))
        .collect();
    engine.store_hashes(&hashes).unwrap();
    let dupes = engine.dupes().unwrap();
    assert_eq!(dupes.len(), 1);
    let order: Vec<&str> = dupes[0].files.iter().map(|f| f.path.as_str()).collect();
    assert_eq!(order, vec!["/lib/aa.jpg", "/lib/zz.jpg", "/lib/photo.jpg", "/lib/deeply/nested/photo.jpg"]);
    assert_eq!(dupes[0].reclaimable, 3 * 4096);
}

#[test]
fn rescan_without_changes_leaves_rows_alone() {
    let mut engine = Engine::open(":memory:").unwrap();
    engine.record_walk("/lib", &walk(library())).unwrap();
    let second = engine.record_walk("/lib", &walk(library())).unwrap();
    assert_eq!(second.added, 0);
    assert_eq!(second.updated, 0);
    assert_eq!(second.unchanged, 7);
    assert_eq!(second.missing, 0);
}

#[test]
fn deleted_file_is_marked_missing_once_and_leaves_dupes() {
    let mut engine = Engine::open(":memory:").unwrap();
    engine.record_walk("/lib", &walk(library())).unwrap();
    hash_library(&mut engine);
    assert_eq!(engine.dupes().unwrap()[0].files.len(), 3);

    let without: Vec<FoundFile> = library()
        .into_iter()
        .filter(|f| f.path != "/lib/copy of kids-beach.jpg")
        .collect();
    let summary = engine.record_walk("/lib", &walk(without.clone())).unwrap();
    assert_eq!(summary.missing, 1);
    assert_eq!(summary.unchanged, 6);
    let dupes = engine.dupes().unwrap();
    assert_eq!(dupes[0].files.len(), 2);
    assert!(dupes[0].files.iter().all(|f| !f.path.contains("copy of")));

    // Already-missing rows are not counted as newly missing again.
    let third = engine.record_walk("/lib", &walk(without)).unwrap();
    assert_eq!(third.missing, 0);
}

#[test]
fn reappearing_unchanged_file_is_revived_with_its_hash() {
    let mut engine = Engine::open(":memory:").unwrap();
    engine.record_walk("/lib", &walk(library())).unwrap();
    hash_library(&mut engine);
    let without: Vec<FoundFile> = library().into_iter().filter(|f| f.path != "/lib/receipt copy.png").collect();
    engine.record_walk("/lib", &walk(without)).unwrap();
    assert_eq!(engine.dupes().unwrap().len(), 1);

    let back = engine.record_walk("/lib", &walk(library())).unwrap();
    assert_eq!(back.updated, 1, "a revived row counts as updated");
    assert_eq!(back.missing, 0);
    assert_eq!(engine.dupes().unwrap().len(), 2, "stored hash is still valid");
}

#[test]
fn modified_file_loses_its_hash_and_leaves_its_group() {
    let mut engine = Engine::open(":memory:").unwrap();
    engine.record_walk("/lib", &walk(library())).unwrap();
    hash_library(&mut engine);
    let mut changed = library();
    changed[4].mtime += 10;
    let summary = engine.record_walk("/lib", &walk(changed)).unwrap();
    assert_eq!(summary.updated, 1);
    assert_eq!(summary.unchanged, 6);
    assert_eq!(engine.dupes().unwrap().len(), 1);
    let candidates = engine.hash_candidates().unwrap();
    let receipts = candidates.iter().find(|(s, _)| *s == 1024).unwrap();
    assert_eq!(receipts.1.iter().filter(|c| !c.already_hashed).count(), 1);
}

#[test]
fn other_roots_are_not_marked_missing() {
    let mut engine = Engine::open(":memory:").unwrap();
    engine.record_walk("/lib", &walk(vec![found("/lib/a.jpg", 1, 1)])).unwrap();
    engine.record_walk("/library", &walk(vec![found("/library/b.jpg", 1, 1)])).unwrap();
    let again = engine.record_walk("/lib/", &walk(vec![])).unwrap();
    assert_eq!(again.missing, 1, "only /lib/a.jpg sits under /lib/");
}

fn set_image(engine: &Engine, id: i64, captured_at: Option<i64>, dhash: i64, phash: i64) {
    let captured = captured_at.map_or("NULL".to_owned(), |t| t.to_string());
    engine
        .db()
        .connection()
        .execute_batch(&format!(
            "INSERT INTO images (file_id, captured_at, width, height, dhash, phash, thumb_path) \
             VALUES ({id}, {captured}, 640, 480, {dhash}, {phash}, '/thumbs/{id}.jpg'); \
             UPDATE files SET status = 'analyzed' WHERE id = {id};"
        ))
        .unwrap();
}

#[test]
fn grid_lists_newest_first_and_undated_last() {
    let mut engine = Engine::open(":memory:").unwrap();
    let files = vec![found("/p/b.jpg", 1, 1), found("/p/a.jpg", 2, 1), found("/p/c.jpg", 3, 1), found("/p/d.jpg", 4, 1)];
    engine.record_walk("/p", &walk(files)).unwrap();
    let ids: Vec<i64> = ["/p/b.jpg", "/p/a.jpg", "/p/c.jpg", "/p/d.jpg"].iter().map(|p| id_of(&mut engine, p)).collect();
    set_image(&engine, ids[0], None, 0, 0);
    set_image(&engine, ids[1], None, 0, 0);
    set_image(&engine, ids[2], Some(100), 0, 0);
    set_image(&engine, ids[3], Some(200), 0, 0);
    let grid = engine.grid_items(0, 10).unwrap();
    let paths: Vec<&str> = grid.iter().map(|g| g.path.as_str()).collect();
    assert_eq!(paths, vec!["/p/d.jpg", "/p/c.jpg", "/p/a.jpg", "/p/b.jpg"]);
    assert_eq!(grid[0].width, Some(640));
    assert_eq!(grid[0].thumb_path.as_deref(), Some(format!("/thumbs/{}.jpg", ids[3]).as_str()));
    assert!(engine.grid_items(u64::MAX, 10).unwrap().is_empty(), "a page past every item is empty");
    assert!(engine.grid_items(1u64 << 63, 10).unwrap().is_empty());
    assert!(engine.grid_items(0, 0).unwrap().is_empty());
    assert_eq!(engine.grid_items(0, u64::MAX).unwrap().len(), 4);
    let page = engine.grid_items(1, 2).unwrap();
    assert_eq!(page.len(), 2);
    assert_eq!(page[0].path, "/p/c.jpg");

    // Missing files drop out of the grid.
    engine.record_walk("/p", &walk(vec![found("/p/b.jpg", 1, 1), found("/p/a.jpg", 2, 1), found("/p/c.jpg", 3, 1)])).unwrap();
    let grid = engine.grid_items(0, 10).unwrap();
    assert_eq!(grid.len(), 3);
    assert_eq!(grid[0].path, "/p/c.jpg");
}

#[test]
fn near_clusters_are_rebuilt_not_accumulated() {
    let mut engine = Engine::open(":memory:").unwrap();
    let files = vec![found("/n/x.jpg", 1, 1), found("/n/y.jpg", 2, 1), found("/n/z.jpg", 3, 1)];
    engine.record_walk("/n", &walk(files)).unwrap();
    let ids: Vec<i64> = ["/n/x.jpg", "/n/y.jpg", "/n/z.jpg"].iter().map(|p| id_of(&mut engine, p)).collect();
    engine
        .store_hashes(&[(ids[0], hash(1)), (ids[1], hash(2)), (ids[2], hash(3))])
        .unwrap();
    set_image(&engine, ids[0], None, 0, -1);
    set_image(&engine, ids[1], None, 3, 0x0F0F);
    set_image(&engine, ids[2], None, 0x00FF_00FF, 0x7777_0000);
    let clusters = engine.cluster_near(8, 10).unwrap();
    assert_eq!(clusters.len(), 1);
    assert_eq!(clusters[0].files, vec!["/n/x.jpg".to_owned(), "/n/y.jpg".to_owned()]);
    let again = engine.cluster_near(8, 10).unwrap();
    assert_eq!(again.len(), 1);
    let count: i64 = engine
        .db()
        .connection()
        .query_row("SELECT COUNT(*) FROM clusters WHERE kind = 'near'", [], |r| r.get(0))
        .unwrap();
    assert_eq!(count, 1);
}

#[test]
fn exact_copies_share_one_representative_for_near_clustering() {
    let mut engine = Engine::open(":memory:").unwrap();
    let files = vec![found("/e/a.jpg", 1, 1), found("/e/b.jpg", 1, 1)];
    engine.record_walk("/e", &walk(files)).unwrap();
    let a = id_of(&mut engine, "/e/a.jpg");
    let b = id_of(&mut engine, "/e/b.jpg");
    engine.store_hashes(&[(a, hash(4)), (b, hash(4))]).unwrap();
    set_image(&engine, a, None, 0, 0);
    set_image(&engine, b, None, 0, 0);
    let reps = engine.db_mut().perceptual_hashes().unwrap();
    assert_eq!(reps.len(), 1);
    assert_eq!(reps[0].id, a.min(b));
    assert!(engine.cluster_near(8, 10).unwrap().is_empty());
}

#[test]
fn burst_frames_read_one_representative_per_content_with_its_embedding() {
    let mut engine = Engine::open(":memory:").unwrap();
    let files = vec![found("/b/a.jpg", 1, 1), found("/b/copy.jpg", 1, 1), found("/b/c.jpg", 2, 1)];
    engine.record_walk("/b", &walk(files)).unwrap();
    let a = id_of(&mut engine, "/b/a.jpg");
    let copy = id_of(&mut engine, "/b/copy.jpg");
    let c = id_of(&mut engine, "/b/c.jpg");
    engine.store_hashes(&[(a, hash(1)), (copy, hash(1)), (c, hash(2))]).unwrap();
    set_image(&engine, a, Some(100), 0, 0);
    set_image(&engine, copy, Some(100), 0, 0);
    set_image(&engine, c, None, 0, 0);
    let conn = engine.db().connection();
    conn.execute_batch(&format!("UPDATE images SET camera = 'Canon R5' WHERE file_id = {a}")).unwrap();
    conn.execute_batch(&format!("INSERT INTO embeddings (file_id, vector) VALUES ({a}, X'0000803F')"))
        .unwrap();
    let frames = engine.db_mut().burst_frames().unwrap();
    assert_eq!(frames.len(), 2);
    let first = &frames[0];
    assert_eq!(first.key.id, a.min(copy));
    assert_eq!(first.key.camera.as_deref(), Some("Canon R5"));
    assert_eq!(first.key.captured_at, Some(100));
    assert!(first.key.has_embedding);
    assert_eq!(first.embedding, Some(vec![0u8, 0, 128, 63]));
    assert_eq!(frames[1].key.id, c);
    assert_eq!(frames[1].key.camera, None);
    assert!(!frames[1].key.has_embedding);
    assert_eq!(frames[1].embedding, None);
}

#[test]
fn images_needing_faces_lists_thumbnailed_images_without_face_facts() {
    let mut engine = Engine::open(":memory:").unwrap();
    engine.record_walk("/f", &walk(vec![found("/f/a.jpg", 1, 1), found("/f/b.jpg", 2, 1)])).unwrap();
    let a = id_of(&mut engine, "/f/a.jpg");
    let b = id_of(&mut engine, "/f/b.jpg");
    set_image(&engine, a, None, 0, 0);
    set_image(&engine, b, None, 0, 0);
    engine
        .db()
        .connection()
        .execute_batch(&format!("UPDATE images SET face_count = 0 WHERE file_id = {b}"))
        .unwrap();
    let targets = engine.images_needing_faces().unwrap();
    assert_eq!(targets, vec![(a, format!("/thumbs/{a}.jpg"))]);
}

#[test]
fn files_needing_embedding_lists_thumbnailed_images_without_a_vector() {
    let mut engine = Engine::open(":memory:").unwrap();
    engine.record_walk("/e", &walk(vec![found("/e/a.jpg", 1, 1), found("/e/b.jpg", 2, 1)])).unwrap();
    let a = id_of(&mut engine, "/e/a.jpg");
    let b = id_of(&mut engine, "/e/b.jpg");
    set_image(&engine, a, None, 0, 0);
    set_image(&engine, b, None, 0, 0);
    engine
        .db()
        .connection()
        .execute_batch(&format!("INSERT INTO embeddings (file_id, vector) VALUES ({a}, x'00')"))
        .unwrap();
    let todo = engine.db_mut().files_needing_embedding().unwrap();
    assert_eq!(todo, vec![(b, format!("/thumbs/{b}.jpg"))]);
}

#[test]
fn schema_is_current_after_open_and_models_start_detached() {
    let mut engine = Engine::open(":memory:").unwrap();
    let version: i64 = engine
        .db()
        .connection()
        .query_row("PRAGMA user_version", [], |r| r.get(0))
        .unwrap();
    assert_eq!(version, 1);
    assert!(!engine.has_embedder());
    assert_eq!(engine.db_mut().embeddings_count().unwrap(), 0);
    assert!(engine.db_mut().cluster_ids().unwrap().is_empty());
    assert_eq!(engine.db_mut().file_meta(42).unwrap(), None);
}

#[test]
fn unopenable_database_reports_a_db_error() {
    let err = Engine::open("/nonexistent-dir-for-culler/sub/culler.db").err().expect("cannot open");
    assert!(err.message().starts_with("database error: "), "{}", err.message());
}
