use pku3b::cmd_announcement::{
    find_announcement, list_brief, render_announcement_show, sort_announcements_owned, write_announcement_detail, AnnouncementAttachmentRecord,
    AnnouncementDetailRecord, AnnouncementItem, AnnouncementListRecord,
};
use pku3b::cmd_course::{
    course_entry_records, course_list_records, render_course_list, render_entries,
    CourseEntryRecord, CourseListRecord,
};
use pku3b::cmd_document::{
    find_document, render_document_list, DocumentItem, DocumentListRecord,
};
use pku3b::cmd_find::{render_find_matches, FindRecord};
use pku3b::cmd_search::{render_search_matches, SearchRecord};
use pku3b::cmd_tree::{
    render_tree_find, render_tree_kinds, render_tree_list, TreeFindRecord, TreeNodeRecord,
};
use pku3b::cmd_video::{
    find_video, render_download_done, render_download_start, render_video_list, segments_in_order,
    video_file_name, video_list_records, CourseVideos, VideoSummary,
};
use pku3b::content::ContentSummary;
use pku3b::style::{Style, Styles};

fn style(tag: &str) -> Style {
    Style {
        on: format!("<{tag}>"),
        off: format!("</{tag}>"),
    }
}

fn styles() -> Styles {
    Styles {
        dim: style("d"),
        bold: style("b"),
        blue: style("bl"),
        green: style("g"),
        underline: style("u"),
        h1: style("h1"),
        h2: style("h2"),
    }
}

#[test]
fn find_matches_render_one_line_per_match() {
    let records = vec![FindRecord {
        course_index: 1,
        course_title: "Course".to_owned(),
        id: "abc".to_owned(),
        title: "Week 1".to_owned(),
        kind: "document".to_owned(),
        match_type: "exact".to_owned(),
        description_count: 0,
        attachment_count: 0,
    }];
    assert_eq!(
        render_find_matches(&styles(), &records),
        "<d>></d> <b>查找结果</b> <d><</d>\n\n<g>[1]</g> <bl>Course</bl> <d>></d> [document:exact] Week 1 <d>abc</d>\n"
    );
}

#[test]
fn search_matches_render_one_line_per_match() {
    let records = vec![SearchRecord {
        course_index: 12,
        course_title: "Course".to_owned(),
        id: "abc".to_owned(),
        title: "Week 1".to_owned(),
        kind: "document".to_owned(),
        description_count: 0,
        attachment_count: 0,
    }];
    assert_eq!(
        render_search_matches(&styles(), &records),
        "<d>></d> <b>搜索结果</b> <d><</d>\n\n<g>[12]</g> <bl>Course</bl> <d>></d> [document] Week 1 <d>abc</d>\n"
    );
    assert_eq!(
        render_search_matches(&styles(), &vec![]),
        "<d>></d> <b>搜索结果</b> <d><</d>\n\n"
    );
}

fn node(id: &str, title: &str, kind: &str) -> ContentSummary {
    ContentSummary {
        id: id.to_owned(),
        title: title.to_owned(),
        kind: kind.to_owned(),
        has_link: false,
        descriptions: vec![],
        attachment_count: 0,
    }
}

#[test]
fn tree_list_renders_summary_and_nodes() {
    let contents = vec![node("_1", "Week 1", "document")];
    assert_eq!(
        render_tree_list(&styles(), "Course", "document:1", &contents),
        "<d>></d> <b>课程内容树摘要</b> <d><</d>\n<bl><b>Course</b></bl>\ndocument:1\n\n<d>•</d> [<g>document</g>] Week 1 <d>_1</d>\n"
    );
}

#[test]
fn tree_find_and_kinds_render_plain_lines() {
    let matches = vec![TreeFindRecord {
        id: "_1".to_owned(),
        title: "Week 1".to_owned(),
        kind: "document".to_owned(),
        has_link: false,
        attachment_count: 0,
        description_count: 0,
        match_type: "exact".to_owned(),
    }];
    assert_eq!(
        render_tree_find(&styles(), "Course", "Week 1", &matches),
        "<bl><b>Course</b></bl>\nquery: Week 1\n<d>•</d> [document:exact] Week 1 _1\n"
    );
    let nodes = vec![TreeNodeRecord {
        id: "_2".to_owned(),
        title: "Homework".to_owned(),
        kind: "assignment".to_owned(),
        has_link: true,
        attachment_count: 1,
        description_count: 0,
    }];
    assert_eq!(
        render_tree_kinds(&styles(), "Course", "Assignment", &nodes),
        "<bl><b>Course</b></bl>\nkind: Assignment\n<d>•</d> [assignment] Homework _2\n"
    );
}

fn video(id: &str, title: &str, time: &str) -> VideoSummary {
    VideoSummary {
        id: id.to_owned(),
        title: title.to_owned(),
        time: time.to_owned(),
    }
}

#[test]
fn video_list_skips_courses_without_lectures() {
    let courses = vec![
        CourseVideos {
            course_title: "Course".to_owned(),
            videos: vec![video("vid1", "Lecture", "01:00")],
        },
        CourseVideos {
            course_title: "Empty".to_owned(),
            videos: vec![],
        },
    ];
    assert_eq!(
        render_video_list(&styles(), &courses),
        "<d>></d> <b>课程回放</b> <d><</d>\n\n<bl><h1>[Course]</h1></bl>\n\n<d>•</d> Lecture (01:00) <d>vid1</d>\n\n"
    );
}

#[test]
fn video_list_records_flatten_and_sort() {
    let courses = vec![
        CourseVideos {
            course_title: "B".to_owned(),
            videos: vec![video("2", "Video", "01:00"), video("1", "Video", "02:00")],
        },
        CourseVideos {
            course_title: "A".to_owned(),
            videos: vec![video("3", "Video", "03:00")],
        },
    ];
    let records = video_list_records(&courses);
    let ids: Vec<&str> = records.iter().map(|r| r.id.as_str()).collect();
    assert_eq!(ids, vec!["3", "1", "2"]);
    assert_eq!(records[0].course_title, "A");
    assert_eq!(records[1].duration, "02:00");
}

#[test]
fn course_list_pads_the_index() {
    let records = vec![
        CourseListRecord {
            index: 3,
            title: "Course".to_owned(),
        },
        CourseListRecord {
            index: 10,
            title: "Other".to_owned(),
        },
    ];
    assert_eq!(
        render_course_list(&styles(), &records),
        "<d>></d> <b>课程列表</b> <d><</d>\n\n<g>[ 3]</g> Course\n<g>[10]</g> Other\n"
    );
}

#[test]
fn course_entries_render_title_and_url() {
    let entries = vec![CourseEntryRecord {
        title: "Assignments".to_owned(),
        url: "https://example.com".to_owned(),
    }];
    assert_eq!(
        render_entries(&styles(), "Course", &entries),
        "<bl><b>Course</b></bl>\n<d>•</d> Assignments <d>https://example.com</d>\n"
    );
}

#[test]
fn announcement_brief_list_counts_and_numbers() {
    let records = vec![
        AnnouncementListRecord {
            course_title: "A".to_owned(),
            id: "1".to_owned(),
            title: "Notice".to_owned(),
            published_at: None,
            attachment_count: 1,
        },
        AnnouncementListRecord {
            course_title: "B".to_owned(),
            id: "2".to_owned(),
            title: "Plain".to_owned(),
            published_at: None,
            attachment_count: 0,
        },
    ];
    assert_eq!(
        list_brief(&styles(), &records),
        "<d>></d> <b>课程公告 (2)</b> <d><</d>\n\n<g>[ 1]</g> <bl><b>A</b></bl> <d>></d> Notice (<g>1 个附件</g>) <d>1</d>\n<g>[ 2]</g> <bl><b>B</b></bl> <d>></d> Plain <d>2</d>\n"
    );
}

#[test]
fn announcement_detail_lists_time_lines_and_attachments() {
    let detail = AnnouncementDetailRecord {
        course_title: "Course".to_owned(),
        id: "ann1".to_owned(),
        title: "Notice".to_owned(),
        published_at: Some("2026-01-01 10:00:00".to_owned()),
        descriptions: vec!["desc".to_owned()],
        attachments: vec![AnnouncementAttachmentRecord {
            name: "file.pdf".to_owned(),
            url: "https://example.com/file.pdf".to_owned(),
        }],
    };
    let mut buf = String::new();
    write_announcement_detail(&mut buf, &styles(), &detail);
    assert_eq!(
        buf,
        "<bl><b>Course</b></bl> <d>></d> <bl><b>Notice</b></bl>\n<d>ID:</d> ann1\n<d>发布时间:</d> 2026-01-01 10:00:00\n\ndesc\n\n<d>[附件]</d> <u>file.pdf</u>\n\n"
    );
}

#[test]
fn document_list_shows_attachment_counts() {
    let records = vec![DocumentListRecord {
        course_title: "Course".to_owned(),
        id: "doc1".to_owned(),
        title: "Week 1".to_owned(),
        attachment_count: 2,
        description_count: 0,
    }];
    assert_eq!(
        render_document_list(&styles(), &records),
        "<d>></d> <b>课程文档</b> <d><</d>\n\n<bl><b>Course</b></bl> <d>></d> <bl><b>Week 1</b></bl> (<g>2 个附件</g>) <d>doc1</d>\n"
    );
}

#[test]
fn lookup_by_id_finds_the_first_match() {
    let items = vec![
        ann(Some(1), "C", "T", "a", 10),
        ann(None, "C", "T", "b", 20),
        ann(None, "C", "T", "b", 30),
    ];
    assert_eq!(find_announcement(&items, "b"), Some(1));
    assert_eq!(find_announcement(&items, "z"), None);
    let docs = vec![
        DocumentItem { title: "T".to_owned(), id: "d1".to_owned(), item: () },
        DocumentItem { title: "U".to_owned(), id: "d2".to_owned(), item: () },
    ];
    assert_eq!(find_document(&docs, "d2"), Some(1));
    assert_eq!(find_document(&docs, "d3"), None);
}

#[test]
fn video_segments_are_put_back_in_order() {
    let results = vec![(2usize, "c"), (0, "a"), (1, "b")];
    assert_eq!(segments_in_order(3, results), Some(vec!["a", "b", "c"]));
    assert_eq!(segments_in_order(3, vec![(0usize, "a"), (2, "c")]), None);
    assert_eq!(segments_in_order(1, vec![(0usize, "old"), (0, "new")]), Some(vec!["new"]));
    assert_eq!(segments_in_order::<&str>(0, vec![]), Some(vec![]));
}

#[test]
fn video_download_texts() {
    assert_eq!(video_file_name("Course", "Lecture"), "Course_Lecture.mp4");
    assert_eq!(render_download_start("Course", "Lecture"), "下载课程回放：Course (Lecture)\n");
    assert_eq!(
        render_download_done(&styles(), "/tmp/a.mp4"),
        "下载完成, 文件保存为: <g><h2>/tmp/a.mp4</h2></g>\n"
    );
}

#[test]
fn course_records_keep_positions_and_sort_entries() {
    let records = course_list_records(&vec!["A".to_owned(), "B".to_owned()]);
    assert_eq!(records.len(), 2);
    assert_eq!(records[1].index, 1);
    assert_eq!(records[1].title, "B");
    let entries = course_entry_records(&vec![
        ("z-work".to_owned(), "/b".to_owned()),
        ("a-announcement".to_owned(), "/a".to_owned()),
    ]);
    assert_eq!(entries[0].title, "a-announcement");
    assert_eq!(entries[0].url, "/a");
    assert_eq!(entries[1].title, "z-work");
}

#[test]
fn announcement_show_has_a_banner() {
    let detail = AnnouncementDetailRecord {
        course_title: "Course".to_owned(),
        id: "ann1".to_owned(),
        title: "Notice".to_owned(),
        published_at: None,
        descriptions: vec![],
        attachments: vec![],
    };
    assert_eq!(
        render_announcement_show(&styles(), &detail),
        "<d>></d> <b>公告详情</b> <d><</d>\n\n<bl><b>Course</b></bl> <d>></d> <bl><b>Notice</b></bl>\n<d>ID:</d> ann1\n\n"
    );
}

fn ann(published: Option<i64>, course: &str, title: &str, id: &str, item: u32) -> AnnouncementItem<u32> {
    AnnouncementItem {
        published,
        course_title: course.to_owned(),
        title: title.to_owned(),
        id: id.to_owned(),
        item,
    }
}

#[test]
fn announcements_are_newest_first_then_by_course_title_id() {
    let items = vec![
        ann(None, "A", "Undated", "u", 1),
        ann(Some(100), "B", "Notice", "2", 2),
        ann(Some(100), "A", "Notice", "1", 3),
        ann(Some(200), "Z", "Newer", "9", 4),
        ann(Some(100), "A", "Alpha", "3", 5),
    ];
    let order: Vec<u32> = sort_announcements_owned(items).into_iter().map(|a| a.item).collect();
    assert_eq!(order, vec![4, 5, 3, 2, 1]);
}

#[test]
fn video_lookup_finds_the_first_lecture_with_the_id() {
    let courses = vec![
        CourseVideos { course_title: "A".to_owned(), videos: vec![video("x", "L1", "01:00")] },
        CourseVideos {
            course_title: "B".to_owned(),
            videos: vec![video("y", "L2", "01:00"), video("x", "L3", "02:00")],
        },
    ];
    assert_eq!(find_video(&courses, "x"), Some((0, 0)));
    assert_eq!(find_video(&courses, "y"), Some((1, 0)));
    assert_eq!(find_video(&courses, "z"), None);
}
