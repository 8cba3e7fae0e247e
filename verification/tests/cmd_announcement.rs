use pku3b::cmd_announcement::{sort_announcement_records, AnnouncementListRecord};

#[test]
fn sort_announcement_records_uses_published_at_then_tie_breakers() {
    let mut records = vec![
        AnnouncementListRecord {
            course_title: "B".to_owned(),
            id: "2".to_owned(),
            title: "Notice".to_owned(),
            published_at: Some("2026-01-01 10:00:00".to_owned()),
            attachment_count: 0,
        },
        AnnouncementListRecord {
            course_title: "A".to_owned(),
            id: "1".to_owned(),
            title: "Notice".to_owned(),
            published_at: Some("2026-01-01 10:00:00".to_owned()),
            attachment_count: 0,
        },
    ];

    sort_announcement_records(&mut records);

    assert_eq!(records[0].course_title, "A");
    assert_eq!(records[1].course_title, "B");
}
