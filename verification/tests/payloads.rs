use pku3b::cmd_announcement::{AnnouncementAttachmentRecord, AnnouncementDetailRecord};
use pku3b::cmd_course::CourseEntryRecord;
use pku3b::cmd_course_table::{
    CourseTableFallback, CourseTableFallbackCourse, CourseTableFallbackEvent,
};
use pku3b::cmd_document::{DocumentAttachmentRecord, DocumentDetailRecord};
use pku3b::cmd_find::FindRecord;
use pku3b::cmd_search::SearchRecord;
use pku3b::cmd_tree::TreeFindRecord;
use pku3b::json::{get_entry, object_insert, JsonValue};
use pku3b::json_output;
use pku3b::markdown_output;

fn object(pairs: Vec<(&str, JsonValue)>) -> JsonValue {
    let mut entries = Vec::new();
    for (k, v) in pairs {
        object_insert(&mut entries, k.to_owned(), v);
    }
    JsonValue::Object(entries)
}

fn member<'a>(v: &'a JsonValue, key: &str) -> &'a JsonValue {
    match v {
        JsonValue::Object(entries) => get_entry(entries, key).expect("member present"),
        _ => panic!("not an object"),
    }
}

fn element(v: &JsonValue, i: usize) -> &JsonValue {
    match v {
        JsonValue::Array(items) => &items[i],
        _ => panic!("not an array"),
    }
}

fn text(v: &JsonValue) -> &str {
    match v {
        JsonValue::String(s) => s.as_str(),
        _ => panic!("not a string"),
    }
}

#[test]
fn announcement_detail_payload_fits_json_envelope() {
    let detail = AnnouncementDetailRecord {
        course_title: "Course".to_owned(),
        id: "ann1".to_owned(),
        title: "Notice".to_owned(),
        published_at: Some("2026-01-01 10:00:00".to_owned()),
        descriptions: vec!["desc".to_owned()],
        attachments: vec![AnnouncementAttachmentRecord {
            name: "file.pdf".to_owned(),
            url: "https://example.com/file.pdf".to_owned(),
        }],
    };
    let env = markdown_output::ok_item(detail);
    assert_eq!(env.schema_version, "1");
    assert_eq!(env.ok, true);
    assert_eq!(env.item.unwrap().attachments[0].name, "file.pdf");
}

#[test]
fn course_entries_payload_fits_json_envelope() {
    let payload = (
        1usize,
        "Course".to_owned(),
        vec![CourseEntryRecord {
            title: "Assignments".to_owned(),
            url: "https://example.com".to_owned(),
        }],
    );
    let env = markdown_output::ok_item(payload);
    assert_eq!(env.schema_version, "1");
    assert_eq!(env.ok, true);
    assert_eq!(env.item.unwrap().2[0].title, "Assignments");
}

#[test]
fn coursetable_payload_fits_json_envelope() {
    let name = "高级心理统计学(主)上课信息：理教101 教师：张三";
    let payload = object(vec![(
        "course",
        JsonValue::Array(vec![object(vec![(
            "mon",
            object(vec![("courseName", JsonValue::String(name.to_owned()))]),
        )])]),
    )]);
    let env = json_output::ok_item(payload);
    assert_eq!(env.schema_version, "1");
    assert_eq!(env.ok, true);
    let item = env.item.unwrap();
    let cell = member(member(element(member(&item, "course"), 0), "mon"), "courseName");
    assert_eq!(text(cell), name);
}

#[test]
fn coursetable_fallback_payload_fits_json_envelope() {
    let payload = CourseTableFallback {
        source: "blackboard_calendar_fallback".to_owned(),
        reason: "oauth login not success".to_owned(),
        window_start: "2026-01-01T00:00:00+08:00".to_owned(),
        window_end: "2027-01-01T00:00:00+08:00".to_owned(),
        courses: vec![CourseTableFallbackCourse {
            title: "决策行为(25-26学年第2学期)".to_owned(),
        }],
        events: vec![CourseTableFallbackEvent {
            calendar_name: "决策行为(25-26学年第2学期)".to_owned(),
            title: "作业1（ddl 4.12 23:59）".to_owned(),
            event_type: Some("作业".to_owned()),
            start: Some("2026-04-12T23:59:00".to_owned()),
            end: Some("2026-04-12T23:59:00".to_owned()),
            location: None,
        }],
    };
    let env = json_output::ok_item(payload);
    assert_eq!(env.schema_version, "1");
    assert_eq!(env.ok, true);
    let item = env.item.unwrap();
    assert_eq!(item.source, "blackboard_calendar_fallback");
    assert_eq!(item.courses[0].title, "决策行为(25-26学年第2学期)");
    assert_eq!(item.events[0].title, "作业1（ddl 4.12 23:59）");
}

#[test]
fn document_detail_payload_fits_json_envelope() {
    let detail = DocumentDetailRecord {
        course_title: "Course".to_owned(),
        id: "doc1".to_owned(),
        title: "Week 1".to_owned(),
        descriptions: vec!["desc".to_owned()],
        attachments: vec![DocumentAttachmentRecord {
            name: "file.pdf".to_owned(),
            url: "https://example.com/file.pdf".to_owned(),
        }],
    };
    let env = markdown_output::ok_item(detail);
    assert_eq!(env.schema_version, "1");
    assert_eq!(env.ok, true);
    assert_eq!(env.item.unwrap().attachments[0].name, "file.pdf");
}

#[test]
fn find_matches_payload_fits_json_envelope() {
    let payload = (
        "Week 1",
        Some("document"),
        Some(0usize),
        vec![FindRecord {
            course_index: 0,
            course_title: "Course".to_owned(),
            id: "abc".to_owned(),
            title: "Week 1".to_owned(),
            kind: "document".to_owned(),
            match_type: "exact".to_owned(),
            description_count: 0,
            attachment_count: 1,
        }],
    );
    let env = markdown_output::ok_item(payload);
    assert_eq!(env.schema_version, "1");
    assert_eq!(env.item.unwrap().3[0].match_type, "exact");
}

#[test]
fn search_matches_payload_fits_json_envelope() {
    let payload = (
        "Week",
        Some("document"),
        vec![SearchRecord {
            course_index: 1,
            course_title: "Course".to_owned(),
            id: "a".to_owned(),
            title: "Week 1".to_owned(),
            kind: "document".to_owned(),
            description_count: 0,
            attachment_count: 1,
        }],
    );
    let env = markdown_output::ok_item(payload);
    assert_eq!(env.schema_version, "1");
    assert_eq!(env.item.unwrap().2[0].title, "Week 1");
}

#[test]
fn tree_find_payload_fits_json_envelope() {
    let payload = (
        1usize,
        "Course",
        "Week 1",
        vec![TreeFindRecord {
            id: "_1".to_owned(),
            title: "Week 1".to_owned(),
            kind: "document".to_owned(),
            has_link: true,
            attachment_count: 1,
            description_count: 0,
            match_type: "exact".to_owned(),
        }],
    );
    let env = json_output::ok_item(payload);
    assert_eq!(env.schema_version, "1");
    assert_eq!(env.item.unwrap().3[0].match_type, "exact");
}
