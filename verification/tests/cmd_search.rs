use pku3b::cmd_search::{sort_search_records, SearchRecord};

#[test]
fn sort_search_records_uses_all_tie_breakers() {
    let mut records = vec![
        SearchRecord {
            course_index: 1,
            course_title: "Course".to_owned(),
            id: "b".to_owned(),
            title: "Week 1".to_owned(),
            kind: "document".to_owned(),
            description_count: 0,
            attachment_count: 0,
        },
        SearchRecord {
            course_index: 1,
            course_title: "Course".to_owned(),
            id: "a".to_owned(),
            title: "Week 1".to_owned(),
            kind: "document".to_owned(),
            description_count: 0,
            attachment_count: 0,
        },
    ];

    sort_search_records(&mut records);

    assert_eq!(records[0].id, "a");
    assert_eq!(records[1].id, "b");
}
