use most_important_deps::extract::Record;
use most_important_deps::output::record_line;
use most_important_deps::text::parse_u64;

fn record(store_path: &str, path_name: &str, architecture: &str, origin: u64) -> Record {
    Record {
        store_path: store_path.to_string(),
        path_name: path_name.to_string(),
        architecture: architecture.to_string(),
        origin,
    }
}

#[test]
fn record_line_joins_fields() {
    let r = record(
        "/nix/store/aaaaaaaaaaaaaaaaaaaaaaaaaaaaaaaa-bbbbbbbbbbbb-pkg",
        "bbbbbbbbbbbb-pkg",
        "arch-linux",
        42,
    );
    assert_eq!(record_line(&r), "bbbbbbbbbbbb-pkg;arch-linux;42\n");
}

#[test]
fn record_line_renders_large_origins() {
    let r = record("s", "n", "a", u64::MAX);
    assert_eq!(record_line(&r), "n;a;18446744073709551615\n");
}

#[test]
fn parse_u64_accepts_plain_decimals_only() {
    assert_eq!(parse_u64("0"), Some(0));
    assert_eq!(parse_u64("42"), Some(42));
    assert_eq!(parse_u64("18446744073709551615"), Some(u64::MAX));
    assert_eq!(parse_u64("18446744073709551616"), None);
    assert_eq!(parse_u64(""), None);
    assert_eq!(parse_u64("4a2"), None);
    assert_eq!(parse_u64("-1"), None);
    assert_eq!(parse_u64(" 7"), None);
}
