use s3mgr::errors::ErrorKind;
use s3mgr::store::MemStore;
use s3mgr::transfer::cat;
use s3mgr::transfer::cat_decode;
use s3mgr::transfer::exists_decision;
use s3mgr::transfer::is_directory;
use s3mgr::transfer::is_directory_listed;
use s3mgr::transfer::is_exists;
use s3mgr::transfer::list_dir;
use s3mgr::errors::CliError;

#[test]
fn put_get_round_trip() {
    let mut store = MemStore::new();
    store.put("a/b.txt", vec![1, 2, 3]);
    assert_eq!(store.get("a/b.txt").unwrap(), vec![1, 2, 3]);
}

#[test]
fn put_replaces_previous_body() {
    let mut store = MemStore::new();
    store.put("k", vec![1]);
    store.put("k", vec![9, 9]);
    assert_eq!(store.get("k").unwrap(), vec![9, 9]);
    assert_eq!(store.list("").len(), 1);
}

#[test]
fn get_absent_is_gateway_404() {
    let store = MemStore::new();
    let e = store.get("missing").unwrap_err();
    assert_eq!(e.kind, ErrorKind::GatewayError);
    assert!(e.message.contains("404"));
}

#[test]
fn head_size_reports_length() {
    let mut store = MemStore::new();
    store.put("k", vec![0; 42]);
    assert_eq!(store.head_size("k").unwrap(), 42);
    assert_eq!(store.head_size("absent").unwrap_err().kind, ErrorKind::GatewayError);
}

#[test]
fn delete_removes_and_errors_when_absent() {
    let mut store = MemStore::new();
    store.put("k", vec![1]);
    store.delete("k").unwrap();
    assert_eq!(store.get("k").unwrap_err().kind, ErrorKind::GatewayError);
    let e = store.delete("k").unwrap_err();
    assert_eq!(e.kind, ErrorKind::GatewayError);
    assert!(e.message.contains("404"));
}

#[test]
fn list_filters_by_prefix_in_store_order() {
    let mut store = MemStore::new();
    store.put("p/a", vec![1]);
    store.put("q/x", vec![2]);
    store.put("p/b", vec![3, 3]);
    let entries = store.list("p/");
    let got: Vec<(String, u64)> = entries.iter().map(|e| (e.key.clone(), e.size)).collect();
    assert_eq!(got, vec![("p/a".to_string(), 1), ("p/b".to_string(), 2)]);
}

#[test]
fn directory_test_sees_children() {
    let mut store = MemStore::new();
    store.put("x/a", vec![]);
    assert!(is_directory(&store, "x"));
    assert!(is_directory(&store, "x/"));
}

#[test]
fn directory_test_empty_listing_is_false() {
    let store = MemStore::new();
    assert!(!is_directory(&store, "x"));
}

#[test]
fn directory_test_over_listing_values() {
    let mut store = MemStore::new();
    store.put("x/a", vec![]);
    let under_x = list_dir(&store, "x");
    assert!(is_directory_listed(&under_x));
    let under_y = list_dir(&store, "y");
    assert!(!is_directory_listed(&under_y));
}

#[test]
fn exists_present_and_absent() {
    let mut store = MemStore::new();
    store.put("here", vec![1]);
    assert_eq!(is_exists(&store, "here").unwrap(), true);
    // a 404-flavoured failure is a definitive "no", not an error
    assert_eq!(is_exists(&store, "gone").unwrap(), false);
}

#[test]
fn exists_decision_propagates_other_errors() {
    let probe: Result<Vec<u8>, CliError> = Err(CliError::new(
        ErrorKind::GatewayError,
        "500 internal error".to_string(),
    ));
    let e = exists_decision(probe).unwrap_err();
    assert_eq!(e.kind, ErrorKind::GatewayError);
    assert_eq!(e.message, "500 internal error");
}

#[test]
fn cat_reads_utf8_text() {
    let mut store = MemStore::new();
    store.put("note.txt", "hello".as_bytes().to_vec());
    assert_eq!(cat(&store, "note.txt").unwrap(), "hello");
}

#[test]
fn cat_rejects_non_utf8_bytes() {
    let mut store = MemStore::new();
    store.put("blob", vec![0xff, 0xfe, 0x00]);
    let e = cat(&store, "blob").unwrap_err();
    assert_eq!(e.kind, ErrorKind::EncodingError);
}

#[test]
fn cat_decode_directly() {
    assert_eq!(cat_decode("grüß".as_bytes().to_vec()).unwrap(), "grüß");
    assert_eq!(cat_decode(vec![0x80]).unwrap_err().kind, ErrorKind::EncodingError);
}
