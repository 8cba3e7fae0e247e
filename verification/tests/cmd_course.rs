use pku3b::cmd_course::{sort_entries, CourseEntryRecord};

#[test]
fn sort_entries_orders_by_title() {
    let mut entries = vec![
        CourseEntryRecord {
            title: "z-work".to_owned(),
            url: "/b".to_owned(),
        },
        CourseEntryRecord {
            title: "a-announcement".to_owned(),
            url: "/a".to_owned(),
        },
    ];

    sort_entries(&mut entries);

    assert_eq!(entries[0].title, "a-announcement");
    assert_eq!(entries[1].title, "z-work");
}
