use most_important_deps::schedule::{
    build_url, eval_action, monitor_done, purge_should_delete, EvalAction,
};
use most_important_deps::text::u64_to_string;

#[test]
fn cached_evaluation_is_skipped() {
    assert_eq!(eval_action(true), EvalAction::Skip);
    assert_eq!(eval_action(false), EvalAction::Process);
}

#[test]
fn monitor_stops_exactly_at_zero() {
    assert!(monitor_done(0));
    assert!(!monitor_done(1));
    assert!(!monitor_done(17));
}

#[test]
fn build_url_names_the_build() {
    assert_eq!(build_url(7), "https://hydra.nixos.org/build/7");
    assert_eq!(build_url(0), "https://hydra.nixos.org/build/0");
    assert_eq!(build_url(123456), "https://hydra.nixos.org/build/123456");
}

#[test]
fn stale_cache_entries_are_purged() {
    let requested: Vec<u64> = vec![];
    assert!(purge_should_delete("7.cache", &requested));
    assert!(purge_should_delete("8.cache", &requested));
    assert!(!purge_should_delete("notes.txt", &requested));
}

#[test]
fn requested_cache_entries_are_kept() {
    let requested: Vec<u64> = vec![7, 100];
    assert!(!purge_should_delete("7.cache", &requested));
    assert!(!purge_should_delete("100.cache", &requested));
    assert!(purge_should_delete("8.cache", &requested));
}

#[test]
fn non_numeric_cache_names_are_kept() {
    let requested: Vec<u64> = vec![];
    assert!(!purge_should_delete("x.cache", &requested));
    assert!(!purge_should_delete(".cache", &requested));
    assert!(!purge_should_delete("7.cache.new", &requested));
    assert!(!purge_should_delete("", &requested));
}

#[test]
fn decimal_strings_render_exactly() {
    assert_eq!(u64_to_string(0), "0");
    assert_eq!(u64_to_string(42), "42");
    assert_eq!(u64_to_string(u64::MAX), "18446744073709551615");
}
