use s3mgr::keypath::compute_relative_path;
use s3mgr::keypath::dir_marker_key;
use s3mgr::keypath::download_rel_path;
use s3mgr::keypath::is_marker_key;
use s3mgr::keypath::join_destination;
use s3mgr::keypath::join_path_segment;
use s3mgr::keypath::last_segment;
use s3mgr::keypath::normalize_dir_prefix;
use s3mgr::keypath::upload_prefix;
use s3mgr::keypath::upload_root_destination;

#[test]
fn normalize_empty_stays_root() {
    assert_eq!(normalize_dir_prefix(""), "");
}

#[test]
fn normalize_appends_slash() {
    assert_eq!(normalize_dir_prefix("a/b"), "a/b/");
}

#[test]
fn normalize_keeps_existing_slash() {
    assert_eq!(normalize_dir_prefix("a/b/"), "a/b/");
}

#[test]
fn relative_path_strips_base_and_slash() {
    assert_eq!(compute_relative_path("photos", "photos/2020/a.jpg"), "2020/a.jpg");
}

#[test]
fn relative_path_keeps_unrelated_key() {
    assert_eq!(compute_relative_path("videos", "photos/a.jpg"), "photos/a.jpg");
}

#[test]
fn relative_path_trims_all_leading_slashes() {
    assert_eq!(compute_relative_path("p", "p//x"), "x");
}

#[test]
fn join_destination_empty_base() {
    assert_eq!(join_destination("", "file.txt"), "file.txt");
}

#[test]
fn join_destination_directory_base() {
    assert_eq!(join_destination("backup/", "file.txt"), "backup/file.txt");
}

#[test]
fn join_destination_verbatim_rename() {
    // the asymmetric rule: a bare destination is the full key
    assert_eq!(join_destination("backup", "file.txt"), "backup");
}

#[test]
fn join_path_segments() {
    assert_eq!(join_path_segment("", "a.txt"), "a.txt");
    assert_eq!(join_path_segment("dir", "a.txt"), "dir/a.txt");
}

#[test]
fn marker_keys() {
    assert_eq!(dir_marker_key("root"), "root/");
    assert!(is_marker_key("root/"));
    assert!(!is_marker_key("root"));
    assert!(!is_marker_key(""));
}

#[test]
fn last_segments() {
    assert_eq!(last_segment("a/b/c.txt"), "c.txt");
    assert_eq!(last_segment("dir/"), "dir");
    assert_eq!(last_segment("plain"), "plain");
    assert_eq!(last_segment("/"), "");
}

#[test]
fn download_local_paths() {
    assert_eq!(download_rel_path("photos", "photos/2020/a.jpg"), "photos/2020/a.jpg");
    assert_eq!(download_rel_path("photos", "photos"), "photos");
    assert_eq!(download_rel_path("a/b", "a/b/c"), "b/c");
}

#[test]
fn upload_prefixes() {
    assert_eq!(upload_prefix(&Some("root".to_string()), ""), "root");
    assert_eq!(upload_prefix(&Some("root".to_string()), "sub"), "root/sub");
    assert_eq!(upload_prefix(&Some("backup/".to_string()), "sub"), "backup/sub");
    assert_eq!(upload_prefix(&Some("".to_string()), "sub"), "sub");
    assert_eq!(upload_prefix(&None, "sub"), "sub");
    assert_eq!(upload_prefix(&None, ""), "");
}

#[test]
fn upload_root_destinations() {
    assert_eq!(upload_root_destination(&None, "root"), "root");
    assert_eq!(upload_root_destination(&Some("backup/".to_string()), "root"), "backup/root");
    assert_eq!(upload_root_destination(&Some("renamed".to_string()), "root"), "renamed");
    assert_eq!(upload_root_destination(&Some("".to_string()), "root"), "root");
}
