use pku3b::cmd_find::{sort_find_records, FindRecord};

fn mk(score: u8, course_index: usize, kind: &str, title: &str, id: &str) -> (u8, FindRecord) {
    (
        score,
        FindRecord {
            course_index,
            course_title: "Course".to_owned(),
            id: id.to_owned(),
            title: title.to_owned(),
            kind: kind.to_owned(),
            match_type: "prefix".to_owned(),
            description_count: 0,
            attachment_count: 0,
        },
    )
}

#[test]
fn sort_find_records_uses_score_then_tie_breakers() {
    let mut records = vec![
        mk(4, 1, "document", "Week 1", "b"),
        mk(4, 1, "document", "Week 1", "a"),
        mk(0, 2, "document", "Week 1", "z"),
    ];

    sort_find_records(&mut records);

    assert_eq!(records[0].0, 0);
    assert_eq!(records[0].1.id, "z");
    assert_eq!(records[1].1.id, "a");
    assert_eq!(records[2].1.id, "b");
}
