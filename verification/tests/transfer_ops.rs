use s3mgr::errors::ErrorKind;
use s3mgr::store::MemStore;
use s3mgr::transfer::download_write_plan;
use s3mgr::transfer::is_exists;
use s3mgr::transfer::list_objects_recursive;
use s3mgr::transfer::remove_recursive;
use s3mgr::transfer::run_copy;
use s3mgr::transfer::run_deletes;
use s3mgr::transfer::run_move;
use s3mgr::transfer::upload_progress_step;

#[test]
fn move_transfers_and_deletes_source() {
    let mut store = MemStore::new();
    store.put("src", vec![4, 2]);
    run_move(&mut store, "src", "dst").unwrap();
    assert_eq!(is_exists(&store, "src").unwrap(), false);
    assert_eq!(store.get("dst").unwrap(), vec![4, 2]);
}

#[test]
fn move_absent_source_fails_untouched() {
    let mut store = MemStore::new();
    store.put("other", vec![1]);
    let e = run_move(&mut store, "src", "dst").unwrap_err();
    assert_eq!(e.kind, ErrorKind::GatewayError);
    assert_eq!(is_exists(&store, "dst").unwrap(), false);
    assert_eq!(is_exists(&store, "other").unwrap(), true);
}

#[test]
fn move_onto_itself_deletes_the_object() {
    // get, put at the same key, then delete the source: the object goes
    let mut store = MemStore::new();
    store.put("k", vec![1]);
    run_move(&mut store, "k", "k").unwrap();
    assert_eq!(is_exists(&store, "k").unwrap(), false);
}

#[test]
fn copy_leaves_source_in_place() {
    let mut store = MemStore::new();
    store.put("src", vec![7]);
    run_copy(&mut store, "src", "dst").unwrap();
    assert_eq!(store.get("src").unwrap(), vec![7]);
    assert_eq!(store.get("dst").unwrap(), vec![7]);
}

#[test]
fn recursive_remove_issues_one_delete_per_key() {
    let mut store = MemStore::new();
    store.put("p/a", vec![]);
    store.put("p/b", vec![]);
    store.put("p/c", vec![]);
    store.put("q/keep", vec![]);
    let keys = list_objects_recursive(&store, "p");
    assert_eq!(keys, vec!["p/a", "p/b", "p/c"]);
    let (issued, result) = remove_recursive(&mut store, "p");
    assert!(result.is_ok());
    assert_eq!(issued, 3);
    assert_eq!(is_exists(&store, "p/a").unwrap(), false);
    assert_eq!(is_exists(&store, "p/b").unwrap(), false);
    assert_eq!(is_exists(&store, "p/c").unwrap(), false);
    assert_eq!(is_exists(&store, "q/keep").unwrap(), true);
}

#[test]
fn recursive_remove_aborts_at_first_failure() {
    let mut store = MemStore::new();
    store.put("p/a", vec![]);
    store.put("p/b", vec![]);
    store.put("p/c", vec![]);
    let keys = list_objects_recursive(&store, "p");
    // the second key vanishes between listing and deleting
    store.delete("p/b").unwrap();
    let (succeeded, result) = run_deletes(&mut store, &keys);
    // one success, then the failing call; p/c was never attempted
    assert_eq!(succeeded, 1);
    assert_eq!(result.unwrap_err().kind, ErrorKind::GatewayError);
    assert_eq!(is_exists(&store, "p/a").unwrap(), false);
    assert_eq!(is_exists(&store, "p/c").unwrap(), true);
}

#[test]
fn download_plan_tiles_the_body() {
    assert_eq!(download_write_plan(10, 4), vec![(0, 4), (4, 8), (8, 10)]);
    assert_eq!(download_write_plan(8, 4), vec![(0, 4), (4, 8)]);
    assert_eq!(download_write_plan(3, 4), vec![(0, 3)]);
    assert_eq!(download_write_plan(0, 4), vec![]);
}

#[test]
fn upload_steps_advance_and_stop() {
    // a full chunk in the middle of the file: go on
    assert_eq!(upload_progress_step(0, 4, 4, 10), (4, true));
    // a short read: stop after counting it
    assert_eq!(upload_progress_step(8, 2, 4, 10), (10, false));
    // the count reaches the file size: stop
    assert_eq!(upload_progress_step(4, 4, 4, 8), (8, false));
    // an empty read: stop
    assert_eq!(upload_progress_step(4, 0, 4, 10), (4, false));
}

#[test]
fn upload_progress_never_decreases() {
    let mut uploaded = 0u64;
    for n in [4usize, 4, 2] {
        let (next, _) = upload_progress_step(uploaded, n, 4, 10);
        assert!(next >= uploaded);
        uploaded = next;
    }
    assert_eq!(uploaded, 10);
}
