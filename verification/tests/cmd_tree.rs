use pku3b::cmd_tree::{counts_from_pairs, summary_text_from_counts, tree_matches_query};
use pku3b::query_match::QueryKey;

#[test]
fn summary_text_uses_sorted_btreemap_order() {
    let counts = counts_from_pairs(vec![
        ("document".to_owned(), 3usize),
        ("assignment".to_owned(), 1usize),
    ]);

    assert_eq!(
        summary_text_from_counts(&counts),
        "assignment:1, document:3"
    );
}

#[test]
fn tree_match_uses_normalized_title_matching() {
    let query = QueryKey::new("Week 1");
    assert!(tree_matches_query("week1 data", "_1", &query, "Week 1"));
    assert!(tree_matches_query(
        "课程安排 Week 1",
        "_1",
        &query,
        "Week 1"
    ));
    assert!(!tree_matches_query("Week 2", "_1", &query, "Week 1"));
}
