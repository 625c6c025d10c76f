use s3mgr::errors::ErrorKind;
use s3mgr::size::format_size;
use s3mgr::size::parse_human_size;
use s3mgr::size::u64_to_dec;

#[test]
fn parse_two_megabytes_exactly() {
    assert_eq!(parse_human_size("2M").unwrap(), 2 * 1024 * 1024);
}

#[test]
fn parse_fractional_kilobytes_exactly() {
    assert_eq!(parse_human_size("1.5K").unwrap(), 1536);
}

#[test]
fn parse_unit_with_trailing_b() {
    assert_eq!(parse_human_size("5MB").unwrap(), 5 * 1024 * 1024);
    assert_eq!(parse_human_size("2GB").unwrap(), 2 * 1024 * 1024 * 1024);
    assert_eq!(parse_human_size("3KB").unwrap(), 3 * 1024);
}

#[test]
fn parse_is_case_insensitive() {
    assert_eq!(parse_human_size("5m").unwrap(), 5 * 1024 * 1024);
    assert_eq!(parse_human_size("1.5k").unwrap(), 1536);
    assert_eq!(parse_human_size("1g").unwrap(), 1024 * 1024 * 1024);
    assert_eq!(parse_human_size("7kb").unwrap(), 7 * 1024);
}

#[test]
fn parse_plain_bytes() {
    assert_eq!(parse_human_size("512").unwrap(), 512);
    assert_eq!(parse_human_size("5B").unwrap(), 5);
    assert_eq!(parse_human_size("0").unwrap(), 0);
}

#[test]
fn parse_trims_whitespace() {
    assert_eq!(parse_human_size("  2M  ").unwrap(), 2 * 1024 * 1024);
    assert_eq!(parse_human_size("\t512\n").unwrap(), 512);
}

#[test]
fn parse_fraction_truncates_to_whole_bytes() {
    // the fraction of a byte is cut off, never rounded up
    assert_eq!(parse_human_size("2.5").unwrap(), 2);
    // 1.1 * 1024 = 1126.4
    assert_eq!(parse_human_size("1.1K").unwrap(), 1126);
}

#[test]
fn parse_accepts_bare_dot_forms() {
    assert_eq!(parse_human_size("1.").unwrap(), 1);
    assert_eq!(parse_human_size(".5K").unwrap(), 512);
}

#[test]
fn parse_rejects_empty() {
    let e = parse_human_size("").unwrap_err();
    assert_eq!(e.kind, ErrorKind::InvalidSize);
    let e = parse_human_size("   ").unwrap_err();
    assert_eq!(e.kind, ErrorKind::InvalidSize);
}

#[test]
fn parse_rejects_malformed_numbers() {
    assert_eq!(parse_human_size("abc").unwrap_err().kind, ErrorKind::InvalidSize);
    assert_eq!(parse_human_size(".").unwrap_err().kind, ErrorKind::InvalidSize);
    assert_eq!(parse_human_size("1.2.3K").unwrap_err().kind, ErrorKind::InvalidSize);
    assert_eq!(parse_human_size("-1").unwrap_err().kind, ErrorKind::InvalidSize);
    assert_eq!(parse_human_size("K").unwrap_err().kind, ErrorKind::InvalidSize);
    assert_eq!(parse_human_size("B").unwrap_err().kind, ErrorKind::InvalidSize);
    assert_eq!(parse_human_size("1 024").unwrap_err().kind, ErrorKind::InvalidSize);
}

#[test]
fn parse_rejects_out_of_range() {
    let e = parse_human_size("99999999999999999999999G").unwrap_err();
    assert_eq!(e.kind, ErrorKind::InvalidSize);
}

#[test]
fn format_plain_bytes() {
    assert_eq!(format_size(0), "0 B");
    assert_eq!(format_size(512), "512 B");
    assert_eq!(format_size(1023), "1023 B");
}

#[test]
fn format_binary_units_two_decimals() {
    assert_eq!(format_size(1536), "1.50 KB");
    assert_eq!(format_size(2 * 1024 * 1024), "2.00 MB");
    assert_eq!(format_size(1024 * 1024 * 1024), "1.00 GB");
    assert_eq!(format_size(1024), "1.00 KB");
}

#[test]
fn format_rounds_to_nearest_hundredth() {
    // 1126 / 1024 = 1.099609... -> 1.10
    assert_eq!(format_size(1126), "1.10 KB");
    // 1047552 / 1024 = 1023.0 KB exactly, still below one MB
    assert_eq!(format_size(1047552), "1023.00 KB");
}

#[test]
fn rendering_is_lossy_by_design() {
    // two byte counts can render identically; parsing cannot recover n
    assert_eq!(format_size(1536), format_size(1537));
}

#[test]
fn decimal_rendering() {
    assert_eq!(u64_to_dec(0), "0");
    assert_eq!(u64_to_dec(7), "7");
    assert_eq!(u64_to_dec(1234567890), "1234567890");
}
