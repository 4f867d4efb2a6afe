use most_important_deps::input::{parse_eval_cache, InputError};

#[test]
fn dependency_failed_line_contributes() {
    let got = parse_eval_cache("x 7 y z Dependency failed\n").unwrap();
    assert_eq!(got, vec![7]);
}

#[test]
fn succeeded_line_contributes_nothing() {
    let got = parse_eval_cache("x 7 y z Succeeded\n").unwrap();
    assert_eq!(got, Vec::<u64>::new());
}

#[test]
fn empty_content_gives_no_builds() {
    assert_eq!(parse_eval_cache("").unwrap(), Vec::<u64>::new());
    assert_eq!(parse_eval_cache("\n\n").unwrap(), Vec::<u64>::new());
}

#[test]
fn short_line_contributes_nothing() {
    let got = parse_eval_cache("a b c\n").unwrap();
    assert_eq!(got, Vec::<u64>::new());
}

#[test]
fn status_must_match_exactly() {
    let got = parse_eval_cache("x 7 y z Dependency failed but more\n").unwrap();
    assert_eq!(got, Vec::<u64>::new());
    let got = parse_eval_cache("x 7 y z dependency failed\n").unwrap();
    assert_eq!(got, Vec::<u64>::new());
}

#[test]
fn lines_keep_their_order() {
    let content = "x 7 y z Dependency failed\nq 9 r s Succeeded\nt 11 u v Dependency failed\n";
    assert_eq!(parse_eval_cache(content).unwrap(), vec![7, 11]);
}

#[test]
fn missing_final_newline_is_fine() {
    assert_eq!(parse_eval_cache("x 7 y z Dependency failed").unwrap(), vec![7]);
}

#[test]
fn malformed_build_id_is_an_error() {
    let got = parse_eval_cache("x abc y z Dependency failed\n");
    assert_eq!(got, Err(InputError::MalformedBuildId));
}

#[test]
fn build_id_overflow_is_an_error() {
    let got = parse_eval_cache("x 18446744073709551616 y z Dependency failed\n");
    assert_eq!(got, Err(InputError::MalformedBuildId));
    let got = parse_eval_cache("x 18446744073709551615 y z Dependency failed\n");
    assert_eq!(got, Ok(vec![u64::MAX]));
}

#[test]
fn malformed_id_on_other_status_is_ignored() {
    let got = parse_eval_cache("x abc y z Succeeded\n").unwrap();
    assert_eq!(got, Vec::<u64>::new());
}

#[test]
fn tabs_also_separate_fields() {
    let got = parse_eval_cache("x\t7\ty\tz\tDependency failed\n").unwrap();
    assert_eq!(got, vec![7]);
}
