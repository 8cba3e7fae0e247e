use pku3b::cmd_course_table::format_course_info;

#[test]
fn format_course_info_extracts_course_room_and_teacher() {
    let raw = "高级心理统计学(主)上课信息：理教101 教师：张三 <br>考试信息：闭卷";
    let formatted = format_course_info(raw);

    assert!(formatted.contains("高级心理统计学"));
    assert!(formatted.contains("理教101"));
    assert!(formatted.contains("教师：张三"));
    assert!(formatted.contains("考试：闭卷"));
}
