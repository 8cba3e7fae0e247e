use pku3b::query_match::{title_match_type, QueryKey};

#[test]
fn query_key_folds_whitespace_and_case() {
    let key = QueryKey::new("  Week   1  ");
    assert_eq!(key.folded(), "week 1");
    assert_eq!(key.compact(), "week1");
}

#[test]
fn title_match_recognizes_compact_equivalence() {
    assert_eq!(
        title_match_type("Week1 课程说明", "abc", "Week 1"),
        Some(("prefix_compact", 5))
    );
}

#[test]
fn title_match_prefers_exact_normalized_before_contains() {
    assert_eq!(
        title_match_type("Week   1", "abc", "week 1"),
        Some(("exact_normalized", 2))
    );
}

#[test]
fn contains_in_checks_folded_and_compact_forms() {
    let key = QueryKey::new("Week 1");
    assert!(key.contains_in("课程安排 Week1 导论"));
    assert!(key.contains_in("课程安排 week 1 导论"));
    assert!(!key.contains_in("Week 2"));
}
