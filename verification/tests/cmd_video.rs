use pku3b::cmd_video::{sort_video_records, VideoListRecord};

#[test]
fn sort_video_records_uses_deterministic_tie_breakers() {
    let mut records = vec![
        VideoListRecord {
            course_title: "B".to_owned(),
            id: "2".to_owned(),
            title: "Video".to_owned(),
            duration: "01:00".to_owned(),
        },
        VideoListRecord {
            course_title: "A".to_owned(),
            id: "1".to_owned(),
            title: "Video".to_owned(),
            duration: "01:00".to_owned(),
        },
    ];

    sort_video_records(&mut records);

    assert_eq!(records[0].course_title, "A");
    assert_eq!(records[1].course_title, "B");
}
