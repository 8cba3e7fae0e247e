use pku3b::cmd_document::{sort_document_records, DocumentListRecord};

#[test]
fn sort_document_records_uses_tie_breakers() {
    let mut records = vec![
        DocumentListRecord {
            course_title: "B".to_owned(),
            id: "2".to_owned(),
            title: "Week 1".to_owned(),
            attachment_count: 0,
            description_count: 0,
        },
        DocumentListRecord {
            course_title: "A".to_owned(),
            id: "1".to_owned(),
            title: "Week 1".to_owned(),
            attachment_count: 0,
            description_count: 0,
        },
    ];

    sort_document_records(&mut records);

    assert_eq!(records[0].course_title, "A");
    assert_eq!(records[1].course_title, "B");
}
