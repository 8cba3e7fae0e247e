use pku3b::cmd_find::collect_find_matches;
use pku3b::cmd_search::collect_search_matches;
use pku3b::cmd_tree::{collect_tree_find_matches, count_kinds, filter_kind, summary_text_from_counts};
use pku3b::cmd_video::{sort_video_records, VideoListRecord};
use pku3b::content::{ContentSummary, CourseContents};
use pku3b::query_match::{title_match_type, QueryKey};
use pku3b::text::is_whitespace;

fn node(id: &str, title: &str, kind: &str) -> ContentSummary {
    ContentSummary {
        id: id.to_owned(),
        title: title.to_owned(),
        kind: kind.to_owned(),
        has_link: false,
        descriptions: vec!["d".to_owned()],
        attachment_count: 2,
    }
}

fn video(course: &str, title: &str, id: &str) -> VideoListRecord {
    VideoListRecord {
        course_title: course.to_owned(),
        id: id.to_owned(),
        title: title.to_owned(),
        duration: "01:00".to_owned(),
    }
}

fn ids(records: &[VideoListRecord]) -> Vec<String> {
    records.iter().map(|r| r.id.clone()).collect()
}

#[test]
fn sorting_twice_changes_nothing() {
    let mut records = vec![
        video("B", "x", "3"),
        video("A", "y", "2"),
        video("A", "x", "1"),
        video("A", "x", "0"),
    ];
    sort_video_records(&mut records);
    let once = ids(&records);
    sort_video_records(&mut records);
    assert_eq!(ids(&records), once);
    assert_eq!(once, vec!["0", "1", "2", "3"]);
}

#[test]
fn a_title_matches_itself_exactly() {
    assert_eq!(title_match_type("Week 1", "x", "Week 1"), Some(("exact", 0)));
    assert_eq!(title_match_type("", "x", ""), Some(("exact", 0)));
}

#[test]
fn a_key_is_found_in_its_own_text() {
    let text = "  课程 Week-1 ";
    assert!(QueryKey::new(text).contains_in(text));
    assert!(!QueryKey::new("   ").contains_in("   "));
}

#[test]
fn normalized_matches_are_contains_hits() {
    let title = "Week1 课程说明";
    let query = "Week 1";
    let (_, rank) = title_match_type(title, "abc", query).unwrap();
    assert!((2..=7).contains(&rank));
    assert!(QueryKey::new(query).contains_in(title));
}

#[test]
fn ranks_never_exceed_id_contains() {
    assert_eq!(title_match_type("zzz", "a-abc-b", "abc"), Some(("id_contains", 8)));
    assert_eq!(title_match_type("zzz", "id", "abc"), None);
}

fn course(index: usize, title: &str, contents: Vec<ContentSummary>) -> CourseContents {
    CourseContents {
        course_index: index,
        course_title: title.to_owned(),
        contents,
    }
}

#[test]
fn find_orders_by_rank_then_course() {
    let courses = vec![
        course(0, "C0", vec![node("a", "Week 1 notes", "document"), node("b", "Week 1", "document")]),
        course(1, "C1", vec![node("c", "week 1", "assignment"), node("d", "Other", "document")]),
    ];
    let found = collect_find_matches(&courses, "Week 1", None, None);
    let got: Vec<(&str, &str)> = found.iter().map(|r| (r.id.as_str(), r.match_type.as_str())).collect();
    assert_eq!(got, vec![("b", "exact"), ("c", "exact_casefold"), ("a", "prefix")]);
    assert_eq!(found[0].course_title, "C0");
    assert_eq!(found[0].description_count, 1);
    assert_eq!(found[0].attachment_count, 2);

    let only_c1 = collect_find_matches(&courses, "Week 1", None, Some(1));
    assert_eq!(only_c1.len(), 1);
    assert_eq!(only_c1[0].id, "c");

    let docs = collect_find_matches(&courses, "Week 1", Some("DOCUMENT"), None);
    let got: Vec<&str> = docs.iter().map(|r| r.id.as_str()).collect();
    assert_eq!(got, vec!["b", "a"]);
}

#[test]
fn search_orders_by_course_kind_title_id() {
    let courses = vec![
        course(1, "C1", vec![node("z", "Week 1", "document"), node("y", "Week 1", "assignment")]),
        course(0, "C0", vec![node("x", "week1 data", "document"), node("w", "Other", "document")]),
    ];
    let found = collect_search_matches(&courses, "Week 1", None);
    let got: Vec<&str> = found.iter().map(|r| r.id.as_str()).collect();
    assert_eq!(got, vec!["x", "y", "z"]);
    let kinds = collect_search_matches(&courses, "Week 1", Some("Assignment"));
    assert_eq!(kinds.len(), 1);
    assert_eq!(kinds[0].id, "y");
}

#[test]
fn tree_find_extends_find_with_contains_hits() {
    let contents = vec![
        node("_1", "课程安排 Week 1", "document"),
        node("_2", "Week 1", "document"),
        node("_3", "Week 2", "document"),
        node("_4", "other", "document"),
    ];
    let found = collect_tree_find_matches(&contents, "Week 1");
    let got: Vec<(&str, &str)> = found.iter().map(|r| (r.id.as_str(), r.match_type.as_str())).collect();
    assert_eq!(got, vec![("_2", "exact"), ("_1", "contains")]);
    let by_id = collect_tree_find_matches(&contents, "_4");
    assert_eq!(by_id.len(), 1);
    assert_eq!(by_id[0].match_type, "id_contains");
}

#[test]
fn tree_counts_and_kind_filter() {
    let contents = vec![
        node("1", "a", "document"),
        node("2", "b", "assignment"),
        node("3", "c", "document"),
    ];
    let counts = count_kinds(&contents);
    assert_eq!(summary_text_from_counts(&counts), "assignment:1, document:2");
    let docs = filter_kind(&contents, "Document");
    let got: Vec<&str> = docs.iter().map(|r| r.id.as_str()).collect();
    assert_eq!(got, vec!["1", "3"]);
    assert_eq!(docs[0].description_count, 1);
}

#[test]
fn whitespace_class_agrees_with_std() {
    for c in (0u32..=0x10FFFF).filter_map(char::from_u32) {
        assert_eq!(is_whitespace(c), c.is_whitespace(), "U+{:04X}", c as u32);
    }
}

#[test]
fn normalising_a_folded_query_again_changes_nothing() {
    for s in ["  Week   1  ", "课程\u{3000}安排\tWeek-1", "", "   ", "ABC def"] {
        let key = QueryKey::new(s);
        assert_eq!(QueryKey::new(key.folded()), key);
    }
}
