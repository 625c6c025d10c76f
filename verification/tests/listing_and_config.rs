use s3mgr::client::S3Client;
use s3mgr::colors::fmt_error;
use s3mgr::colors::fmt_head;
use s3mgr::colors::fmt_info;
use s3mgr::colors::fmt_nested_path;
use s3mgr::colors::fmt_path;
use s3mgr::colors::fmt_success;
use s3mgr::colors::fmt_val;
use s3mgr::colors::fmt_warn;
use s3mgr::config::apply_config_changes;
use s3mgr::config::config_display_lines;
use s3mgr::config::format_chunk_size;
use s3mgr::config::handle_config_change;
use s3mgr::config::Config;
use s3mgr::config::ConfigUpdate;
use s3mgr::config::S3Config;
use s3mgr::listing::ls_display_infos;
use s3mgr::listing::ls_totals;
use s3mgr::listing::sort_infos;
use s3mgr::listing::FileInfo;
use s3mgr::progress::progress_chars;
use s3mgr::progress::progress_message;
use s3mgr::progress::progress_template;
use s3mgr::progress::ProgressType;
use s3mgr::store::MemStore;

fn no_update() -> ConfigUpdate {
    ConfigUpdate {
        access_key: None,
        secret_key: None,
        region: None,
        bucket: None,
        endpoint: None,
        upload_chunk_size: None,
        download_chunk_size: None,
    }
}

#[test]
fn defaults_are_as_documented() {
    let c = Config::default();
    assert_eq!(c.s3.region, "us-east-1");
    assert_eq!(c.s3.access_key, "");
    assert_eq!(c.s3.bucket, "");
    assert!(c.s3.endpoint.is_none());
    assert_eq!(c.upload_chunk_size, 2 * 1024 * 1024);
    assert_eq!(c.download_chunk_size, 2 * 1024 * 1024);
}

#[test]
fn display_infos_zero_directory_sizes() {
    let mut store = MemStore::new();
    store.put("d/", vec![0; 9]);
    store.put("d/file", vec![0; 5]);
    let infos = ls_display_infos(store.list(""));
    assert_eq!(infos.len(), 2);
    assert!(infos[0].is_dir);
    assert_eq!(infos[0].size, 0);
    assert!(!infos[1].is_dir);
    assert_eq!(infos[1].size, 5);
}

#[test]
fn sorting_puts_directories_first_then_names() {
    let infos = vec![
        FileInfo { name: "zeta.txt".to_string(), size: 1, is_dir: false },
        FileInfo { name: "beta/".to_string(), size: 0, is_dir: true },
        FileInfo { name: "alpha.txt".to_string(), size: 2, is_dir: false },
        FileInfo { name: "acme/".to_string(), size: 0, is_dir: true },
    ];
    let sorted = sort_infos(infos);
    let names: Vec<String> = sorted.iter().map(|i| i.name.clone()).collect();
    assert_eq!(names, vec!["acme/", "beta/", "alpha.txt", "zeta.txt"]);
}

#[test]
fn totals_count_and_sum() {
    let infos = vec![
        FileInfo { name: "d/".to_string(), size: 0, is_dir: true },
        FileInfo { name: "a".to_string(), size: 10, is_dir: false },
        FileInfo { name: "b".to_string(), size: 32, is_dir: false },
    ];
    let (dirs, files, total) = ls_totals(&infos);
    assert_eq!(dirs, 1);
    assert_eq!(files, 2);
    assert_eq!(total, 42);
}

#[test]
fn chunk_size_rendering() {
    assert_eq!(format_chunk_size(2 * 1024 * 1024), "2.00 MB (2097152)");
}

#[test]
fn change_report_only_for_real_changes() {
    assert!(handle_config_change("same", "same", "Region", true).is_none());
    let line = handle_config_change("old", "new", "Region", true).unwrap();
    assert!(line.starts_with("Region: "));
    assert!(line.contains("old"));
    assert!(line.contains("new"));
}

#[test]
fn change_report_hides_secrets() {
    let line = handle_config_change("old-secret", "new-secret", "Secret Key", false).unwrap();
    assert!(line.contains("<hidden>"));
    assert!(!line.contains("old-secret"));
    assert!(!line.contains("new-secret"));
}

#[test]
fn applying_updates_changes_fields_and_reports() {
    let c = Config::default();
    let update = ConfigUpdate {
        access_key: Some("AKIA".to_string()),
        region: Some("eu-west-1".to_string()),
        ..no_update()
    };
    let (newc, changes) = apply_config_changes(c, update, false);
    assert_eq!(newc.s3.access_key, "AKIA");
    assert_eq!(newc.s3.region, "eu-west-1");
    assert_eq!(newc.s3.bucket, "");
    assert_eq!(changes.len(), 2);
    assert!(changes[0].starts_with("Access Key ID: "));
    assert!(changes[1].starts_with("Region: "));
}

#[test]
fn applying_equal_values_reports_nothing() {
    let c = Config::default();
    let update = ConfigUpdate { region: Some("us-east-1".to_string()), ..no_update() };
    let (newc, changes) = apply_config_changes(c, update, false);
    assert_eq!(newc.s3.region, "us-east-1");
    assert!(changes.is_empty());
}

#[test]
fn applying_endpoint_and_chunk_sizes() {
    let c = Config::default();
    let update = ConfigUpdate {
        endpoint: Some("https://store.example".to_string()),
        upload_chunk_size: Some(5 * 1024 * 1024),
        ..no_update()
    };
    let (newc, changes) = apply_config_changes(c, update, false);
    assert_eq!(newc.s3.endpoint.as_deref(), Some("https://store.example"));
    assert_eq!(newc.upload_chunk_size, 5 * 1024 * 1024);
    assert_eq!(newc.download_chunk_size, 2 * 1024 * 1024);
    assert_eq!(changes.len(), 2);
    assert!(changes[0].starts_with("Endpoint: "));
    assert!(changes[1].starts_with("Upload Chunk Size: "));
}

#[test]
fn display_lines_cover_every_field() {
    let c = Config::default();
    let lines = config_display_lines(&c, false);
    assert_eq!(lines.len(), 7);
    assert!(lines[0].starts_with("Access Key ID: "));
    assert!(lines[0].contains("<not set>"));
    assert!(lines[2].starts_with("Region: "));
    assert!(lines[2].contains("us-east-1"));
    assert!(lines[5].contains("2.00 MB (2097152)"));
}

#[test]
fn display_hides_the_secret_key() {
    let mut c = Config::default();
    c.s3.secret_key = "SECRET-REDACTED".to_string();
    let hidden = config_display_lines(&c, false);
    assert!(hidden[1].contains("<hidden>"));
    assert!(!hidden[1].contains("SECRET-REDACTED"));
    let shown = config_display_lines(&c, true);
    assert!(shown[1].contains("SECRET-REDACTED"));
}

#[test]
fn colors_wrap_the_text() {
    // on this platform the console takes ANSI codes: the text is styled,
    // either with the colour sequences or, colours disabled, with empty
    // escape pairs — never handed back bare
    let green = fmt_success("ok");
    assert!(green == "\u{1b}[38;5;10mok\u{1b}[39m" || green == "\u{1b}[mok\u{1b}[m");
    let yellow = fmt_warn("ow");
    assert!(yellow == "\u{1b}[38;5;11mow\u{1b}[39m" || yellow == "\u{1b}[mow\u{1b}[m");
    let blue = fmt_info("in");
    assert!(blue == "\u{1b}[38;5;12min\u{1b}[39m" || blue == "\u{1b}[min\u{1b}[m");
    let red = fmt_error("no");
    assert!(red == "\u{1b}[38;5;9mno\u{1b}[39m" || red == "\u{1b}[mno\u{1b}[m");
    assert_eq!(fmt_head("t"), "\u{1b}[1mt\u{1b}[0m");
}

#[test]
fn path_coloring_by_kind() {
    let dir = fmt_path("d/");
    assert!(dir == "\u{1b}[38;5;4md/\u{1b}[39m" || dir == "\u{1b}[md/\u{1b}[m");
    let file = fmt_path("f.txt");
    assert!(file == "\u{1b}[38;5;14mf.txt\u{1b}[39m" || file == "\u{1b}[mf.txt\u{1b}[m");
}

#[test]
fn value_placeholders() {
    let unset = fmt_val("", "<not set>");
    assert!(unset.contains("<not set>"));
    let set = fmt_val("value", "<not set>");
    assert!(set.contains("value"));
    assert!(!set.contains("<not set>"));
}

#[test]
fn nested_paths_keep_every_segment() {
    let styled = fmt_nested_path("a/b/c");
    assert!(styled.contains('a'));
    assert!(styled.contains('b'));
    assert!(styled.contains('c'));
    assert_ne!(styled, "a/b/c");
}

#[test]
fn progress_settings() {
    assert_eq!(progress_chars(&ProgressType::Download), "=>-");
    assert_eq!(
        progress_template(&ProgressType::Upload),
        "[{bar:30.green/red}] {bytes}/{total_bytes} ({eta}) [{bytes_per_sec}] {prefix}"
    );
    assert_eq!(
        progress_template(&ProgressType::List),
        "{spinner:.red} [{bar:30.green/red}] {pos}/{len} ({eta}) {msg}"
    );
    assert_eq!(progress_message(&ProgressType::List), Some("Getting file sizes..."));
    assert_eq!(progress_message(&ProgressType::Download), None);
}

#[test]
fn client_carries_settings_over() {
    let cfg = S3Config {
        access_key: "ak".to_string(),
        secret_key: "sk".to_string(),
        region: "us-east-1".to_string(),
        bucket: "bkt".to_string(),
        endpoint: Some("https://store.example".to_string()),
    };
    let client = S3Client::new(&cfg).unwrap();
    assert_eq!(client.access_key, "ak");
    assert_eq!(client.bucket, "bkt");
    assert_eq!(client.endpoint.as_deref(), Some("https://store.example"));
}
