use most_important_deps::dom::FlatNode;
use most_important_deps::extract::extract_records;

fn node(
    tag: Option<&str>,
    id: Option<&str>,
    class_attr: Option<&str>,
    href: Option<&str>,
    text: &str,
    parent: Option<usize>,
) -> FlatNode {
    FlatNode {
        tag: tag.map(|s| s.to_string()),
        id: id.map(|s| s.to_string()),
        class_attr: class_attr.map(|s| s.to_string()),
        href: href.map(|s| s.to_string()),
        text: text.to_string(),
        parent,
    }
}

const SP: &str = "/nix/store/aaaaaaaaaaaaaaaaaaaaaaaaaaaaaaaa-bbbbbbbbbbbb-pkg";

fn base_nodes() -> Vec<FlatNode> {
    vec![
        node(Some("div"), None, Some("info-table"), None, "arch-linux", None),
        node(Some("tt"), None, None, None, "arch-linux", Some(0)),
        node(Some("div"), Some("tabs-buildsteps"), None, None, "", None),
        node(Some("table"), None, Some("clickable-rows"), None, "", Some(2)),
        node(Some("tr"), None, None, None, "", Some(3)),
        node(Some("td"), None, None, None, "1", Some(4)),
        node(Some("td"), None, None, None, SP, Some(4)),
        node(Some("td"), None, None, None, "x", Some(4)),
        node(Some("td"), None, None, None, "y", Some(4)),
        node(Some("td"), None, None, None, "Failed log", Some(4)),
        node(Some("tt"), None, None, None, SP, Some(6)),
        node(
            Some("a"),
            None,
            None,
            Some("https://hydra.nixos.org/build/42"),
            "log",
            Some(9),
        ),
    ]
}

#[test]
fn model_row_yields_expected_record() {
    let recs = extract_records(&base_nodes()).unwrap();
    assert_eq!(recs.len(), 1);
    assert_eq!(recs[0].store_path, SP);
    assert_eq!(recs[0].path_name, "bbbbbbbbbbbb-pkg");
    assert_eq!(recs[0].architecture, "arch-linux");
    assert_eq!(recs[0].origin, 42);
}

#[test]
fn later_build_anchor_overrides_log_anchor() {
    let mut nodes = base_nodes();
    nodes.push(node(
        Some("a"),
        None,
        None,
        Some("https://hydra.nixos.org/build/99"),
        "build 99",
        Some(9),
    ));
    let recs = extract_records(&nodes).unwrap();
    assert_eq!(recs.len(), 1);
    assert_eq!(recs[0].origin, 99);
}

#[test]
fn log_anchor_after_build_anchor_does_not_override() {
    let mut nodes = base_nodes();
    // The existing log anchor at index 11 comes after this build anchor only
    // in document order when pushed before it; rebuild with the build anchor
    // first by giving the log anchor a later index.
    nodes[11] = node(
        Some("a"),
        None,
        None,
        Some("https://hydra.nixos.org/build/99"),
        "build 99",
        Some(9),
    );
    nodes.push(node(
        Some("a"),
        None,
        None,
        Some("https://hydra.nixos.org/build/42"),
        "log",
        Some(9),
    ));
    let recs = extract_records(&nodes).unwrap();
    assert_eq!(recs.len(), 1);
    assert_eq!(recs[0].origin, 99);
}

#[test]
fn anchor_outside_status_cell_is_ignored() {
    let mut nodes = base_nodes();
    nodes[11].parent = Some(7);
    let recs = extract_records(&nodes).unwrap();
    assert_eq!(recs.len(), 0);
}

#[test]
fn first_info_table_tt_decides_architecture() {
    // A second info-table tt later in the page does not change the
    // architecture: the first one in document order wins.
    let mut nodes = base_nodes();
    nodes.push(node(Some("div"), None, Some("info-table"), None, "other", None));
    let last = nodes.len() - 1;
    nodes.push(node(Some("tt"), None, None, None, "other", Some(last)));
    let recs = extract_records(&nodes).unwrap();
    assert_eq!(recs.len(), 1);
    assert_eq!(recs[0].architecture, "arch-linux");
}
