use most_important_deps::extract::{build_page_records, ParseError};
use most_important_deps::output::record_line;

fn page(rows: &str) -> String {
    let mut s = String::new();
    s.push_str("<html><body>");
    s.push_str("<table class=\"info-table\"><tr><td><tt>arch-linux</tt></td></tr></table>");
    s.push_str("<div id=\"tabs-buildsteps\"><table class=\"clickable-rows\"><tbody>");
    s.push_str(rows);
    s.push_str("</tbody></table></div></body></html>");
    s
}

fn row(col1: &str, col4: &str) -> String {
    format!("<tr><td>1</td><td>{col1}</td><td>x</td><td>y</td><td>{col4}</td></tr>")
}

const STORE_TT: &str = "<tt>/nix/store/aaaaaaaaaaaaaaaaaaaaaaaaaaaaaaaa-bbbbbbbbbbbb-pkg,foo</tt>";

#[test]
fn one_failed_row_gives_one_record() {
    let p = page(&row(STORE_TT, "Failed <a href=\"/build/42\">log</a>"));
    let recs = build_page_records(&p).unwrap();
    assert_eq!(recs.len(), 1);
    assert_eq!(
        recs[0].store_path,
        "/nix/store/aaaaaaaaaaaaaaaaaaaaaaaaaaaaaaaa-bbbbbbbbbbbb-pkg"
    );
    assert_eq!(recs[0].path_name, "bbbbbbbbbbbb-pkg");
    assert_eq!(recs[0].architecture, "arch-linux");
    assert_eq!(recs[0].origin, 42);
    assert_eq!(record_line(&recs[0]), "bbbbbbbbbbbb-pkg;arch-linux;42\n");
}

#[test]
fn propagated_build_link_wins_over_log() {
    let p = page(&row(
        STORE_TT,
        "Failed <a href=\"/build/42\">log</a> <a href=\"/build/99\">build 99</a>",
    ));
    let recs = build_page_records(&p).unwrap();
    assert_eq!(recs.len(), 1);
    assert_eq!(record_line(&recs[0]), "bbbbbbbbbbbb-pkg;arch-linux;99\n");
}

#[test]
fn duplicate_store_path_keeps_last_row() {
    let rows = format!(
        "{}{}",
        row(STORE_TT, "Failed <a href=\"https://hydra.nixos.org/build/42\">log</a>"),
        row(STORE_TT, "Failed <a href=\"https://hydra.nixos.org/build/99\">log</a>"),
    );
    let recs = build_page_records(&page(&rows)).unwrap();
    assert_eq!(recs.len(), 1);
    assert_eq!(record_line(&recs[0]), "bbbbbbbbbbbb-pkg;arch-linux;99\n");
}

#[test]
fn cached_status_also_counts() {
    let p = page(&row(
        STORE_TT,
        "Cached failure <a href=\"https://hydra.nixos.org/build/7\">log</a>",
    ));
    let recs = build_page_records(&p).unwrap();
    assert_eq!(recs.len(), 1);
    assert_eq!(recs[0].origin, 7);
}

#[test]
fn other_status_gives_no_record() {
    let p = page(&row(
        STORE_TT,
        "Succeeded <a href=\"https://hydra.nixos.org/build/42\">log</a>",
    ));
    let recs = build_page_records(&p).unwrap();
    assert_eq!(recs.len(), 0);
}

#[test]
fn row_without_five_cells_gives_no_record() {
    let rows = format!(
        "<tr><td>{STORE_TT}</td><td>x</td><td>y</td>\
         <td>Failed <a href=\"https://hydra.nixos.org/build/42\">log</a></td></tr>"
    );
    let recs = build_page_records(&page(&rows)).unwrap();
    assert_eq!(recs.len(), 0);
}

#[test]
fn row_without_any_link_is_skipped() {
    let p = page(&row(STORE_TT, "Failed while retrying"));
    let recs = build_page_records(&p).unwrap();
    assert_eq!(recs.len(), 0);
}

#[test]
fn missing_architecture_fails_the_page() {
    let p = "<html><body><div id=\"tabs-buildsteps\">\
             <table class=\"clickable-rows\"><tbody></tbody></table></div></body></html>";
    assert!(matches!(build_page_records(p), Err(ParseError::NoArchitecture)));
}

#[test]
fn missing_steps_table_fails_the_page() {
    let p = "<html><body>\
             <table class=\"info-table\"><tr><td><tt>arch-linux</tt></td></tr></table>\
             </body></html>";
    assert!(matches!(build_page_records(p), Err(ParseError::NoStepsTable)));
}

#[test]
fn missing_store_path_fails_the_page() {
    let p = page(&row(
        "no tt here",
        "Failed <a href=\"https://hydra.nixos.org/build/42\">log</a>",
    ));
    assert!(matches!(build_page_records(&p), Err(ParseError::NoStorePath)));
}

#[test]
fn short_store_path_fails_the_page() {
    let p = page(&row(
        "<tt>/nix/store/short</tt>",
        "Failed <a href=\"https://hydra.nixos.org/build/42\">log</a>",
    ));
    assert!(matches!(build_page_records(&p), Err(ParseError::StorePathTooShort)));
}

#[test]
fn absolute_and_relative_links_name_the_same_build() {
    let rel = page(&row(STORE_TT, "Failed <a href=\"/build/42\">log</a>"));
    let abs = page(&row(
        STORE_TT,
        "Failed <a href=\"https://hydra.nixos.org/build/42\">log</a>",
    ));
    assert_eq!(build_page_records(&rel).unwrap()[0].origin, 42);
    assert_eq!(build_page_records(&abs).unwrap()[0].origin, 42);
}

#[test]
fn nested_log_link_names_the_build_segment() {
    let p = page(&row(
        STORE_TT,
        "Failed <a href=\"https://hydra.nixos.org/build/42/nixlog/1\">log</a>",
    ));
    assert_eq!(build_page_records(&p).unwrap()[0].origin, 42);
}

#[test]
fn link_without_build_segment_fails_the_page() {
    let p = page(&row(STORE_TT, "Failed <a href=\"/log/42\">log</a>"));
    assert!(matches!(build_page_records(&p), Err(ParseError::NoOriginBuildId)));
}

#[test]
fn architecture_with_separator_fails_the_page() {
    let p = "<html><body>\
             <table class=\"info-table\"><tr><td><tt>arch;linux</tt></td></tr></table>\
             <div id=\"tabs-buildsteps\"><table class=\"clickable-rows\"><tbody>\
             </tbody></table></div></body></html>";
    assert!(matches!(build_page_records(p), Err(ParseError::BadArchitecture)));
}

#[test]
fn empty_architecture_fails_the_page() {
    let p = "<html><body>\
             <table class=\"info-table\"><tr><td><tt></tt></td></tr></table>\
             <div id=\"tabs-buildsteps\"><table class=\"clickable-rows\"><tbody>\
             </tbody></table></div></body></html>";
    assert!(matches!(build_page_records(p), Err(ParseError::BadArchitecture)));
}

#[test]
fn empty_path_name_fails_the_page() {
    // Exactly 44 characters: nothing is left for the path name.
    let p = page(&row(
        "<tt>/nix/store/aaaaaaaaaaaaaaaaaaaaaaaaaaaaaaaa-</tt>",
        "Failed <a href=\"/build/42\">log</a>",
    ));
    assert!(matches!(build_page_records(&p), Err(ParseError::BadPathName)));
}

#[test]
fn path_name_with_separator_fails_the_page() {
    let p = page(&row(
        "<tt>/nix/store/aaaaaaaaaaaaaaaaaaaaaaaaaaaaaaaa-x;y</tt>",
        "Failed <a href=\"/build/42\">log</a>",
    ));
    assert!(matches!(build_page_records(&p), Err(ParseError::BadPathName)));
}

#[test]
fn non_numeric_origin_fails_the_page() {
    let p = page(&row(
        STORE_TT,
        "Failed <a href=\"https://hydra.nixos.org/build/abc\">log</a>",
    ));
    assert!(matches!(build_page_records(&p), Err(ParseError::BadOriginBuildId)));
}

#[test]
fn store_path_stops_at_first_comma() {
    let p = page(&row(
        "<tt>/nix/store/cccccccccccccccccccccccccccccccc-name-one,extra,notes</tt>",
        "Failed <a href=\"https://hydra.nixos.org/build/5\">log</a>",
    ));
    let recs = build_page_records(&p).unwrap();
    assert_eq!(recs.len(), 1);
    assert_eq!(recs[0].store_path, "/nix/store/cccccccccccccccccccccccccccccccc-name-one");
    assert_eq!(recs[0].path_name, "name-one");
}

#[test]
fn distinct_store_paths_give_distinct_records() {
    let rows = format!(
        "{}{}",
        row(STORE_TT, "Failed <a href=\"https://hydra.nixos.org/build/42\">log</a>"),
        row(
            "<tt>/nix/store/dddddddddddddddddddddddddddddddd-other-pkg</tt>",
            "Failed <a href=\"https://hydra.nixos.org/build/43\">log</a>"
        ),
    );
    let recs = build_page_records(&page(&rows)).unwrap();
    assert_eq!(recs.len(), 2);
    let mut lines: Vec<String> = Vec::new();
    for r in &recs {
        lines.push(record_line(r));
    }
    lines.sort();
    assert_eq!(lines[0], "bbbbbbbbbbbb-pkg;arch-linux;42\n");
    assert_eq!(lines[1], "other-pkg;arch-linux;43\n");
}

#[test]
fn oversized_page_is_refused_up_front() {
    // One character above the parser's buffer bound in characters.
    let p = "a".repeat(0x4000_0000);
    assert!(matches!(build_page_records(&p), Err(ParseError::PageTooLarge)));
}
