use vstd::prelude::*;

use crate::content::copy_string;
use crate::json::{get_entry, member, JsonValue};
use crate::sorting::{stable_sort, stably_sorted, SortKey};
use crate::text::{
    compare_opt_text, compare_text, lemma_opt_text_order_laws, lemma_text_order_laws,
    opt_text_order, opt_view, text_order, then_order,
};
use crate::text::{
    chars_eq, chars_of, decimal, first_index, first_occurrence, prefix_before, push_chars,
    push_decimal, push_str, slice_chars, string_from_chars, suffix_after, trim_chars, trim_of,
};

verus! {

/// Where the teacher's name ends: at the first space, else at the first `<`,
/// else at the end.
pub open spec fn teacher_end(t: Seq<char>) -> int {
    match first_occurrence(t, seq![' ']) {
        Some(i) => i,
        None => match first_occurrence(t, seq!['<']) {
            Some(j) => j,
            None => t.len() as int,
        },
    }
}

/// ` | ` followed by `label` and `text`, or nothing when `text` is empty.
pub open spec fn labelled(label: Seq<char>, text: Seq<char>) -> Seq<char> {
    if text.len() > 0 {
        " | "@ + label + text
    } else {
        seq![]
    }
}

/// The class (room) and teacher parts that follow `上课信息：`.
pub open spec fn class_part(rest: Seq<char>) -> Seq<char> {
    labelled(seq![], trim_of(prefix_before(rest, "教师："@))) + match suffix_after(rest, "教师："@) {
        Some(t) => labelled("教师："@, trim_of(t.take(teacher_end(t)))),
        None => seq![],
    }
}

/// The exam part that follows `考试信息：`.
pub open spec fn exam_part(rest: Seq<char>) -> Seq<char> {
    labelled("考试："@, trim_of(prefix_before(rest, seq!['<'])))
}

/// The one-line summary of a course-table cell: the course name (the text
/// before `(主)`), then the class room, the teacher and the exam
/// arrangement when the cell mentions them, separated by ` | `.
pub open spec fn course_info_text(info: Seq<char>) -> Seq<char> {
    trim_of(prefix_before(info, "(主)"@)) + match suffix_after(info, "上课信息："@) {
        Some(rest) => class_part(rest),
        None => seq![],
    } + match suffix_after(info, "考试信息："@) {
        Some(rest) => exam_part(rest),
        None => seq![],
    }
}

/// What a course-table cell summary holds: it opens with the trimmed course
/// name (the text before `(主)`); a cell mentioning neither class nor exam
/// information is just that name; and when the exam information (the text
/// after `考试信息：`, up to a `<`, trimmed) is non-empty, the summary ends
/// with ` | 考试：` and that text.
pub proof fn lemma_course_info_parts(info: Seq<char>)
    ensures
        ({
            let name = trim_of(prefix_before(info, "(主)"@));
            let r = course_info_text(info);
            let exam = trim_of(prefix_before(suffix_after(info, "考试信息："@)->0, seq!['<']));
            &&& r.len() >= name.len() && r.take(name.len() as int) == name
            &&& suffix_after(info, "上课信息："@) is None && suffix_after(info, "考试信息："@) is None
                ==> r == name
            &&& suffix_after(info, "考试信息："@) is Some && exam.len() > 0 ==> ({
                let tail = " | "@ + "考试："@ + exam;
                r.len() >= tail.len() && r.skip(r.len() - tail.len()) == tail
            })
        }),
{
    let name = trim_of(prefix_before(info, "(主)"@));
    let r = course_info_text(info);
    assert(r =~= name + r.skip(name.len() as int));
    if let Some(rest) = suffix_after(info, "考试信息："@) {
        let t = trim_of(prefix_before(rest, seq!['<']));
        if t.len() > 0 {
            let tail = " | "@ + "考试："@ + t;
            assert(r =~= r.take(r.len() - tail.len()) + tail);
        }
    }
}

/// The part of `cs` before the first `pat` (all of it when `pat` is absent).
fn before(cs: &Vec<char>, pat: &Vec<char>) -> (r: Vec<char>)
    ensures
        r@ == prefix_before(cs@, pat@),
{
    match first_index(cs, pat) {
        Some(i) => {
            let r = slice_chars(cs, 0, i);
            assert(r@ =~= cs@.take(i as int));
            r
        },
        None => {
            let r = slice_chars(cs, 0, cs.len());
            assert(r@ =~= cs@);
            r
        },
    }
}

/// The part of `cs` after the first `pat`, when `pat` occurs.
fn after(cs: &Vec<char>, pat: &Vec<char>) -> (r: Option<Vec<char>>)
    ensures
        match r {
            Some(v) => suffix_after(cs@, pat@) == Some(v@),
            None => suffix_after(cs@, pat@) is None,
        },
{
    match first_index(cs, pat) {
        Some(i) => {
            let plen = pat.len();
            let n = cs.len();
            assert(i + plen <= n);
            let r = slice_chars(cs, i + plen, n);
            assert(r@ =~= cs@.skip(i + pat@.len()));
            Some(r)
        },
        None => None,
    }
}

fn push_labelled(buf: &mut String, label: &str, text: &Vec<char>)
    ensures
        final(buf)@ == old(buf)@ + labelled(label@, text@),
{
    let ghost start = buf@;
    if text.len() > 0 {
        push_str(buf, " | ");
        push_str(buf, label);
        push_chars(buf, text);
        assert(buf@ =~= start + labelled(label@, text@));
    } else {
        assert(buf@ =~= start + labelled(label@, text@));
    }
}

fn push_unlabelled(buf: &mut String, text: &Vec<char>)
    ensures
        final(buf)@ == old(buf)@ + labelled(seq![], text@),
{
    let ghost start = buf@;
    if text.len() > 0 {
        push_str(buf, " | ");
        push_chars(buf, text);
        assert(buf@ =~= start + labelled(seq![], text@));
    } else {
        assert(buf@ =~= start + labelled(seq![], text@));
    }
}

/// Summarises a course-table cell (see [`course_info_text`]).
pub fn format_course_info(info: &str) -> (r: String)
    ensures
        r@ == course_info_text(info@),
{
    let cs = chars_of(info);
    let mut result = String::new();
    let name = trim_chars(&before(&cs, &chars_of("(主)")));
    push_chars(&mut result, &name);
    let ghost after_name = result@;
    let teacher_pat = chars_of("教师：");
    match after(&cs, &chars_of("上课信息：")) {
        Some(rest) => {
            let class_info = trim_chars(&before(&rest, &teacher_pat));
            push_unlabelled(&mut result, &class_info);
            match after(&rest, &teacher_pat) {
                Some(t) => {
                    let space = vec![' '];
                    let lt = vec!['<'];
                    assert(space@ =~= seq![' ']);
                    assert(lt@ =~= seq!['<']);
                    let end = match first_index(&t, &space) {
                        Some(i) => i,
                        None => match first_index(&t, &lt) {
                            Some(j) => j,
                            None => t.len(),
                        },
                    };
                    let teacher = trim_chars(&slice_chars(&t, 0, end));
                    proof {
                        assert(t@.subrange(0, end as int) =~= t@.take(teacher_end(t@)));
                    }
                    push_labelled(&mut result, "教师：", &teacher);
                },
                None => {},
            }
            assert(result@ =~= after_name + class_part(rest@));
        },
        None => {
            assert(result@ =~= after_name + Seq::<char>::empty());
        },
    }
    let ghost after_class = result@;
    match after(&cs, &chars_of("考试信息：")) {
        Some(rest) => {
            let lt = vec!['<'];
            assert(lt@ =~= seq!['<']);
            let exam = trim_chars(&before(&rest, &lt));
            push_labelled(&mut result, "考试：", &exam);
            assert(result@ =~= after_class + exam_part(rest@));
        },
        None => {
            assert(result@ =~= after_class + Seq::<char>::empty());
        },
    }
    assert(result@ =~= course_info_text(info@));
    result
}

// ---------------------------------------------------------------------------
// The weekly grid
// ---------------------------------------------------------------------------

/// The course name held by one period of one day, when present and non-empty.
pub open spec fn slot_course_name(slot: JsonValue, day_key: Seq<char>) -> Option<Seq<char>> {
    match member(slot, day_key) {
        Some(course) => match member(course, "courseName"@) {
            Some(JsonValue::String(name)) => if name@.len() > 0 {
                Some(name@)
            } else {
                None
            },
            _ => None,
        },
        None => None,
    }
}

/// The occupied periods of one day among the first `n` periods: the period
/// number (counting from 1) and the summarised course.
pub open spec fn day_slots(periods: Seq<JsonValue>, day_key: Seq<char>, n: nat) -> Seq<(nat, Seq<char>)>
    decreases n,
{
    if n == 0 || n > periods.len() {
        seq![]
    } else {
        day_slots(periods, day_key, (n - 1) as nat) + match slot_course_name(periods[n - 1], day_key) {
            Some(name) => seq![(n, course_info_text(name))],
            None => seq![],
        }
    }
}

/// The end of the run of entries with text `info` that continues at `j`.
pub open spec fn run_end(slots: Seq<(nat, Seq<char>)>, info: Seq<char>, j: int) -> int
    decreases slots.len() - j,
{
    if j < 0 || j >= slots.len() {
        slots.len() as int
    } else if slots[j].1 != info {
        j
    } else {
        run_end(slots, info, j + 1)
    }
}

/// One grid line: a period or a period range and the course.
pub open spec fn period_line(first: nat, last: nat, info: Seq<char>) -> Seq<char> {
    if first == last {
        "  第"@ + decimal(first) + "节: "@ + info + seq!['\n']
    } else {
        "  第"@ + decimal(first) + seq!['-'] + decimal(last) + "节: "@ + info + seq!['\n']
    }
}

/// The grid lines from entry `i` on: each run of consecutive entries with the
/// same course becomes one line.
pub open spec fn runs_text(slots: Seq<(nat, Seq<char>)>, i: int) -> Seq<char>
    decreases slots.len() - i,
{
    if i < 0 || i >= slots.len() {
        seq![]
    } else {
        let j = run_end(slots, slots[i].1, i + 1);
        proof {
            lemma_run_end_bounds(slots, slots[i].1, i + 1);
        }
        if j <= i {
            seq![]
        } else {
            period_line(slots[i].0, slots[j - 1].0, slots[i].1) + runs_text(slots, j)
        }
    }
}

/// The block of one day: a `[day]` header and its grid lines, or nothing for
/// a free day.
pub open spec fn day_text(periods: Seq<JsonValue>, day_key: Seq<char>, day_name: Seq<char>) -> Seq<char> {
    let slots = day_slots(periods, day_key, periods.len());
    if slots.len() == 0 {
        seq![]
    } else {
        seq!['['] + day_name + "]\n"@ + runs_text(slots, 0) + seq!['\n']
    }
}

/// The readable course table of a course-table document: `None` when the
/// document has no `course` list, a notice for an empty list, otherwise the
/// occupied periods of each weekday.
pub open spec fn course_table_text(doc: JsonValue) -> Option<Seq<char>> {
    match member(doc, "course"@) {
        Some(JsonValue::Array(periods)) => Some(
            if periods@.len() == 0 {
                "暂无课表数据\n"@
            } else {
                "个人课表\n\n"@ + day_text(periods@, "mon"@, "周一"@) + day_text(periods@, "tue"@, "周二"@)
                    + day_text(periods@, "wed"@, "周三"@) + day_text(periods@, "thu"@, "周四"@)
                    + day_text(periods@, "fri"@, "周五"@) + day_text(periods@, "sat"@, "周六"@)
                    + day_text(periods@, "sun"@, "周日"@)
            },
        ),
        _ => None,
    }
}

/// The key of weekday `k` (0 is Monday) in a course-table period.
pub open spec fn weekday_key(k: int) -> Seq<char> {
    if k == 0 {
        "mon"@
    } else if k == 1 {
        "tue"@
    } else if k == 2 {
        "wed"@
    } else if k == 3 {
        "thu"@
    } else if k == 4 {
        "fri"@
    } else if k == 5 {
        "sat"@
    } else {
        "sun"@
    }
}

/// The printed name of weekday `k` (0 is Monday).
pub open spec fn weekday_name(k: int) -> Seq<char> {
    if k == 0 {
        "周一"@
    } else if k == 1 {
        "周二"@
    } else if k == 2 {
        "周三"@
    } else if k == 3 {
        "周四"@
    } else if k == 4 {
        "周五"@
    } else if k == 5 {
        "周六"@
    } else {
        "周日"@
    }
}

/// The grid lines of weekday `k` under a header naming that weekday, or
/// nothing when it has no course.
pub open spec fn weekday_block(periods: Seq<JsonValue>, k: int) -> Seq<char> {
    let slots = day_slots(periods, weekday_key(k), periods.len());
    if slots.len() == 0 {
        seq![]
    } else {
        seq!['['] + weekday_name(k) + seq![']', '\n'] + runs_text(slots, 0) + seq!['\n']
    }
}

/// The blocks of the first `n` weekdays, Monday first.
pub open spec fn weekday_blocks(periods: Seq<JsonValue>, n: nat) -> Seq<char>
    decreases n,
{
    if n == 0 {
        seq![]
    } else {
        weekday_blocks(periods, (n - 1) as nat) + weekday_block(periods, n - 1)
    }
}

/// The weekly grid lists the days from Monday to Sunday, and the courses
/// found under each day's key appear under a header with that day's own
/// name; a day without courses has no block.
pub proof fn lemma_course_table_days(doc: JsonValue)
    requires
        member(doc, "course"@) matches Some(JsonValue::Array(periods)) && periods@.len() > 0,
    ensures
        course_table_text(doc) == Some(
            "个人课表\n\n"@ + weekday_blocks(member(doc, "course"@)->0->Array_0@, 7),
        ),
{
    let periods = member(doc, "course"@)->0->Array_0@;
    reveal_strlit("]\n");
    reveal_with_fuel(weekday_blocks, 8);
    assert forall|k: int| 0 <= k < 7 implies weekday_block(periods, k) == day_text(
        periods,
        weekday_key(k),
        weekday_name(k),
    ) by {
        assert("]\n"@ =~= seq![']', '\n']);
    }
    assert(weekday_blocks(periods, 7) =~= day_text(periods, "mon"@, "周一"@) + day_text(
        periods,
        "tue"@,
        "周二"@,
    ) + day_text(periods, "wed"@, "周三"@) + day_text(periods, "thu"@, "周四"@) + day_text(
        periods,
        "fri"@,
        "周五"@,
    ) + day_text(periods, "sat"@, "周六"@) + day_text(periods, "sun"@, "周日"@));
}

fn slot_name<'a>(slot: &'a JsonValue, day_key: &str) -> (r: Option<&'a String>)
    ensures
        match r {
            Some(name) => slot_course_name(*slot, day_key@) == Some(name@),
            None => slot_course_name(*slot, day_key@) is None,
        },
{
    match slot {
        JsonValue::Object(entries) => match get_entry(entries, day_key) {
            Some(JsonValue::Object(course)) => match get_entry(course, "courseName") {
                Some(JsonValue::String(name)) => {
                    if chars_of(name.as_str()).len() > 0 {
                        Some(name)
                    } else {
                        None
                    }
                },
                _ => None,
            },
            _ => None,
        },
        _ => None,
    }
}

/// The view of a list of numbered entries.
pub open spec fn slots_view(v: Seq<(usize, String)>) -> Seq<(nat, Seq<char>)> {
    Seq::new(v.len(), |i: int| (v[i].0 as nat, v[i].1@))
}

fn collect_day_slots(periods: &Vec<JsonValue>, day_key: &str) -> (slots: Vec<(usize, String)>)
    ensures
        slots_view(slots@) == day_slots(periods@, day_key@, periods@.len()),
{
    let mut slots: Vec<(usize, String)> = Vec::new();
    let mut i: usize = 0;
    while i < periods.len()
        invariant
            i <= periods.len(),
            slots_view(slots@) == day_slots(periods@, day_key@, i as nat),
        decreases periods.len() - i,
    {
        let ghost before = slots@;
        match slot_name(&periods[i], day_key) {
            Some(name) => {
                let info = format_course_info(name.as_str());
                slots.push((i + 1, info));
                assert(slots_view(slots@) =~= slots_view(before).push(((i + 1) as nat, info@)));
                assert(slots_view(slots@) =~= day_slots(periods@, day_key@, (i + 1) as nat));
            },
            None => {
                assert(slots_view(slots@) =~= day_slots(periods@, day_key@, (i + 1) as nat));
            },
        }
        i += 1;
    }
    slots
}

/// A run of equal periods starting at `j` stays within the list and every
/// period in it has the same course text.
pub proof fn lemma_run_end_bounds(slots: Seq<(nat, Seq<char>)>, info: Seq<char>, j: int)
    requires
        0 <= j <= slots.len(),
    ensures
        j <= run_end(slots, info, j) <= slots.len(),
        forall|k: int| j <= k < run_end(slots, info, j) ==> slots[k].1 == info,
    decreases slots.len() - j,
{
    if j < slots.len() && slots[j].1 == info {
        lemma_run_end_bounds(slots, info, j + 1);
    }
}

fn push_period_line(buf: &mut String, first: usize, last: usize, info: &String)
    ensures
        final(buf)@ == old(buf)@ + period_line(first as nat, last as nat, info@),
{
    let ghost start = buf@;
    push_str(buf, "  第");
    push_decimal(buf, first);
    if first != last {
        push_str(buf, "-");
        proof {
            reveal_strlit("-");
        }
        push_decimal(buf, last);
    }
    push_str(buf, "节: ");
    push_str(buf, info.as_str());
    push_str(buf, "\n");
    proof {
        reveal_strlit("\n");
    }
    assert(buf@ =~= start + period_line(first as nat, last as nat, info@));
}

fn push_day(buf: &mut String, periods: &Vec<JsonValue>, day_key: &str, day_name: &str)
    ensures
        final(buf)@ == old(buf)@ + day_text(periods@, day_key@, day_name@),
{
    let ghost start = buf@;
    let slots = collect_day_slots(periods, day_key);
    let ghost sv = slots_view(slots@);
    if slots.len() == 0 {
        assert(buf@ =~= start + day_text(periods@, day_key@, day_name@));
        return;
    }
    push_str(buf, "[");
    push_str(buf, day_name);
    push_str(buf, "]\n");
    proof {
        reveal_strlit("[");
    }
    let ghost grid_start = buf@;
    let mut i: usize = 0;
    while i < slots.len()
        invariant
            i <= slots.len(),
            sv == slots_view(slots@),
            buf@ + runs_text(sv, i as int) == grid_start + runs_text(sv, 0),
        decreases slots.len() - i,
    {
        let first = slots[i].0;
        let mut last = first;
        let mut j = i + 1;
        while j < slots.len() && chars_eq(&chars_of(slots[j].1.as_str()), &chars_of(slots[i].1.as_str()))
            invariant
                i < j <= slots.len(),
                sv == slots_view(slots@),
                last == slots@[j - 1].0,
                run_end(sv, sv[i as int].1, i + 1) == run_end(sv, sv[i as int].1, j as int),
            decreases slots.len() - j,
        {
            last = slots[j].0;
            j += 1;
        }
        proof {
            lemma_run_end_bounds(sv, sv[i as int].1, i + 1);
            assert(run_end(sv, sv[i as int].1, i + 1) == j);
        }
        let ghost before = buf@;
        push_period_line(buf, first, last, &slots[i].1);
        proof {
            assert(runs_text(sv, i as int) == period_line(sv[i as int].0, sv[j - 1].0, sv[i as int].1)
                + runs_text(sv, j as int));
            assert(buf@ + runs_text(sv, j as int) =~= before + runs_text(sv, i as int));
        }
        i = j;
    }
    push_str(buf, "\n");
    proof {
        reveal_strlit("\n");
        reveal_strlit("]\n");
        assert(buf@ =~= start + day_text(periods@, day_key@, day_name@));
    }
}

/// Renders the readable course table (see [`course_table_text`]).
pub fn render_course_table(doc: &JsonValue) -> (r: Option<String>)
    ensures
        match r {
            Some(t) => course_table_text(*doc) == Some(t@),
            None => course_table_text(*doc) is None,
        },
{
    let periods = match doc {
        JsonValue::Object(entries) => match get_entry(entries, "course") {
            Some(JsonValue::Array(p)) => p,
            _ => {
                return None;
            },
        },
        _ => {
            return None;
        },
    };
    let mut buf = String::new();
    if periods.len() == 0 {
        push_str(&mut buf, "暂无课表数据\n");
        assert(buf@ =~= "暂无课表数据\n"@);
        return Some(buf);
    }
    push_str(&mut buf, "个人课表\n\n");
    push_day(&mut buf, periods, "mon", "周一");
    push_day(&mut buf, periods, "tue", "周二");
    push_day(&mut buf, periods, "wed", "周三");
    push_day(&mut buf, periods, "thu", "周四");
    push_day(&mut buf, periods, "fri", "周五");
    push_day(&mut buf, periods, "sat", "周六");
    push_day(&mut buf, periods, "sun", "周日");
    assert(buf@ =~= course_table_text(*doc)->0);
    Some(buf)
}

// ---------------------------------------------------------------------------
// The calendar fallback
// ---------------------------------------------------------------------------

/// A course of the current term, listed by the calendar fallback.
pub struct CourseTableFallbackCourse {
    pub title: String,
}

/// One event of the Blackboard calendar.
pub struct CourseTableFallbackEvent {
    pub calendar_name: String,
    pub title: String,
    pub event_type: Option<String>,
    pub start: Option<String>,
    pub end: Option<String>,
    pub location: Option<String>,
}

/// What the course-table command reports when it falls back to the calendar.
pub struct CourseTableFallback {
    pub source: String,
    pub reason: String,
    pub window_start: String,
    pub window_end: String,
    pub courses: Vec<CourseTableFallbackCourse>,
    pub events: Vec<CourseTableFallbackEvent>,
}

/// The text of member `key`, when it is a string.
pub open spec fn text_member(v: JsonValue, key: Seq<char>) -> Option<Seq<char>> {
    match member(v, key) {
        Some(JsonValue::String(t)) => Some(t@),
        _ => None,
    }
}

/// The text of member `key`, or the empty text.
pub open spec fn text_or_empty(v: JsonValue, key: Seq<char>) -> Seq<char> {
    match text_member(v, key) {
        Some(t) => t,
        None => seq![],
    }
}

/// `e` is the event read from the calendar entry `v`.
pub open spec fn event_of(e: CourseTableFallbackEvent, v: JsonValue) -> bool {
    &&& e.calendar_name@ == text_or_empty(v, "calendarName"@)
    &&& e.title@ == text_or_empty(v, "title"@)
    &&& opt_view(e.event_type) == text_member(v, "eventType"@)
    &&& opt_view(e.start) == text_member(v, "start"@)
    &&& opt_view(e.end) == text_member(v, "end"@)
    &&& opt_view(e.location) == text_member(v, "location"@)
}

/// The positions of the calendar entries among the first `n` that have a
/// non-empty title.
pub open spec fn titled_entries(entries: Seq<JsonValue>, n: nat) -> Seq<int>
    decreases n,
{
    if n == 0 || n > entries.len() {
        seq![]
    } else {
        titled_entries(entries, (n - 1) as nat) + if text_or_empty(entries[n - 1], "title"@).len() > 0 {
            seq![n - 1]
        } else {
            seq![]
        }
    }
}

impl SortKey for CourseTableFallbackEvent {
    open spec fn key_le(self, other: Self) -> bool {
        then_order(
            opt_text_order(opt_view(self.start), opt_view(other.start)),
            then_order(
                text_order(self.calendar_name@, other.calendar_name@),
                text_order(self.title@, other.title@),
            ),
        ) <= 0
    }

    fn le(&self, other: &Self) -> (r: bool) {
        let c = compare_opt_text(&self.start, &other.start);
        if c != 0 {
            return c < 0;
        }
        let c = compare_text(self.calendar_name.as_str(), other.calendar_name.as_str());
        if c != 0 {
            return c < 0;
        }
        compare_text(self.title.as_str(), other.title.as_str()) <= 0
    }

    proof fn lemma_total(a: Self, b: Self) {
        lemma_opt_text_order_laws(opt_view(a.start), opt_view(b.start), opt_view(b.start));
        lemma_text_order_laws(a.calendar_name@, b.calendar_name@, b.calendar_name@);
        lemma_text_order_laws(a.title@, b.title@, b.title@);
    }

    proof fn lemma_trans(a: Self, b: Self, c: Self) {
        lemma_opt_text_order_laws(opt_view(a.start), opt_view(b.start), opt_view(c.start));
        lemma_text_order_laws(a.calendar_name@, b.calendar_name@, c.calendar_name@);
        lemma_text_order_laws(a.title@, b.title@, c.title@);
    }
}

fn text_of(v: &JsonValue, key: &str) -> (r: Option<String>)
    ensures
        opt_view(r) == text_member(*v, key@),
{
    match v {
        JsonValue::Object(entries) => match get_entry(entries, key) {
            Some(JsonValue::String(t)) => Some(copy_string(t)),
            _ => None,
        },
        _ => None,
    }
}

/// Reads one calendar entry.
pub fn event_from_json(v: &JsonValue) -> (e: CourseTableFallbackEvent)
    ensures
        event_of(e, *v),
{
    let calendar_name = match text_of(v, "calendarName") {
        Some(t) => t,
        None => String::new(),
    };
    let title = match text_of(v, "title") {
        Some(t) => t,
        None => String::new(),
    };
    CourseTableFallbackEvent {
        calendar_name,
        title,
        event_type: text_of(v, "eventType"),
        start: text_of(v, "start"),
        end: text_of(v, "end"),
        location: text_of(v, "location"),
    }
}

/// `events` are the titled calendar entries, read in entry order.
pub open spec fn describes_events(events: Seq<CourseTableFallbackEvent>, entries: Seq<JsonValue>) -> bool {
    let kept = titled_entries(entries, entries.len());
    &&& events.len() == kept.len()
    &&& forall|k: int|
        0 <= k < events.len() ==> 0 <= #[trigger] kept[k] < entries.len() && event_of(
            events[k],
            entries[kept[k]],
        )
}

/// The calendar events with a title, ordered by start (unknown starts
/// first), then calendar name, then title.
pub fn fallback_events(entries: &Vec<JsonValue>) -> (out: Vec<CourseTableFallbackEvent>)
    ensures
        exists|events: Seq<CourseTableFallbackEvent>|
            describes_events(events, entries@) && stably_sorted(events, out@),
{
    let mut events: Vec<CourseTableFallbackEvent> = Vec::new();
    let mut i: usize = 0;
    while i < entries.len()
        invariant
            i <= entries.len(),
            events@.len() == titled_entries(entries@, i as nat).len(),
            forall|k: int|
                0 <= k < events@.len() ==> 0 <= #[trigger] titled_entries(entries@, i as nat)[k] < i
                    && event_of(events@[k], entries@[titled_entries(entries@, i as nat)[k]]),
        decreases entries.len() - i,
    {
        let ghost prev = titled_entries(entries@, i as nat);
        let ghost next = titled_entries(entries@, (i + 1) as nat);
        let e = event_from_json(&entries[i]);
        if chars_of(e.title.as_str()).len() > 0 {
            events.push(e);
            proof {
                assert(next == prev + seq![i as int]);
                assert forall|k: int| 0 <= k < events@.len() implies 0 <= #[trigger] next[k] < i + 1
                    && event_of(events@[k], entries@[next[k]]) by {
                    if k < prev.len() {
                        assert(next[k] == prev[k]);
                    }
                }
            }
        } else {
            proof {
                assert(next =~= prev);
            }
        }
        i += 1;
    }
    let ghost unsorted = events@;
    stable_sort(&mut events);
    assert(describes_events(unsorted, entries@) && stably_sorted(unsorted, events@));
    events
}

impl SortKey for CourseTableFallbackCourse {
    open spec fn key_le(self, other: Self) -> bool {
        text_order(self.title@, other.title@) <= 0
    }

    fn le(&self, other: &Self) -> (r: bool) {
        compare_text(self.title.as_str(), other.title.as_str()) <= 0
    }

    proof fn lemma_total(a: Self, b: Self) {
        lemma_text_order_laws(a.title@, b.title@, b.title@);
    }

    proof fn lemma_trans(a: Self, b: Self, c: Self) {
        lemma_text_order_laws(a.title@, b.title@, c.title@);
    }
}

/// The courses carry the given titles, in order.
pub open spec fn courses_titled(courses: Seq<CourseTableFallbackCourse>, titles: Seq<String>) -> bool {
    &&& courses.len() == titles.len()
    &&& forall|k: int| 0 <= k < titles.len() ==> (#[trigger] courses[k]).title == titles[k]
}

/// The course list of the fallback: the titles in text order.
pub fn fallback_courses(titles: Vec<String>) -> (out: Vec<CourseTableFallbackCourse>)
    ensures
        exists|unsorted: Seq<CourseTableFallbackCourse>|
            #[trigger] courses_titled(unsorted, titles@) && stably_sorted(unsorted, out@),
{
    let ghost orig = titles@;
    let mut titles = titles;
    let mut courses: Vec<CourseTableFallbackCourse> = Vec::new();
    let ghost mut i: int = 0;
    while titles.len() > 0
        invariant
            0 <= i <= orig.len(),
            titles@ == orig.skip(i),
            courses@.len() == i,
            forall|k: int| 0 <= k < i ==> (#[trigger] courses@[k]).title == orig[k],
        decreases titles.len(),
    {
        let title = titles.remove(0);
        courses.push(CourseTableFallbackCourse { title });
        proof {
            assert(orig[i] == title);
            i = i + 1;
            assert(titles@ =~= orig.skip(i));
        }
    }
    let ghost unsorted = courses@;
    stable_sort(&mut courses);
    assert(courses_titled(unsorted, orig) && stably_sorted(unsorted, courses@));
    courses
}

/// The fallback's courses are ordered by title: in any stable sort, titles
/// never decrease.
pub proof fn lemma_fallback_courses_by_title(
    input: Seq<CourseTableFallbackCourse>,
    out: Seq<CourseTableFallbackCourse>,
    i: int,
    j: int,
)
    requires
        stably_sorted(input, out),
        0 <= i < j < out.len(),
    ensures
        !crate::text::text_lt(out[j].title@, out[i].title@),
{
    assert(out[i].key_le(out[j]));
    crate::text::lemma_text_order_laws(out[i].title@, out[j].title@, out[j].title@);
}

/// The fallback's events are ordered by start time (events without one
/// first), then by calendar name and title: in any stable sort, each later
/// field only orders events that agree on all earlier ones.
pub proof fn lemma_fallback_events_order(
    input: Seq<CourseTableFallbackEvent>,
    out: Seq<CourseTableFallbackEvent>,
    i: int,
    j: int,
)
    requires
        stably_sorted(input, out),
        0 <= i < j < out.len(),
    ensures
        ({
            let (x, y) = (out[i], out[j]);
            &&& y.start is None ==> x.start is None
            &&& x.start is Some && y.start is Some ==> !crate::text::text_lt(y.start->0@, x.start->0@)
            &&& opt_view(x.start) == opt_view(y.start) ==> !crate::text::text_lt(y.calendar_name@, x.calendar_name@)
            &&& opt_view(x.start) == opt_view(y.start) && x.calendar_name@ == y.calendar_name@
                ==> !crate::text::text_lt(y.title@, x.title@)
        }),
{
    let (x, y) = (out[i], out[j]);
    assert(x.key_le(y));
    lemma_opt_text_order_laws(opt_view(x.start), opt_view(y.start), opt_view(y.start));
    if x.start is Some && y.start is Some {
        let a = x.start->0@;
        let b = y.start->0@;
        assert(opt_view(x.start) == Some(a));
        assert(opt_view(y.start) == Some(b));
        crate::text::lemma_text_order_laws(a, b, b);
    }
    crate::text::lemma_text_order_laws(x.calendar_name@, y.calendar_name@, y.calendar_name@);
    crate::text::lemma_text_order_laws(x.title@, y.title@, y.title@);
}

/// Assembles the fallback report from the failure reason, the calendar
/// window, the current courses and the raw calendar entries.
pub fn blackboard_fallback(
    reason: String,
    window_start: String,
    window_end: String,
    course_titles: Vec<String>,
    entries: &Vec<JsonValue>,
) -> (r: CourseTableFallback)
    ensures
        r.source@ == "blackboard_calendar_fallback"@,
        r.reason == reason,
        r.window_start == window_start,
        r.window_end == window_end,
        exists|unsorted: Seq<CourseTableFallbackCourse>|
            #[trigger] courses_titled(unsorted, course_titles@) && stably_sorted(unsorted, r.courses@),
        exists|events: Seq<CourseTableFallbackEvent>|
            describes_events(events, entries@) && stably_sorted(events, r.events@),
{
    let events = fallback_events(entries);
    let ghost titles = course_titles@;
    let courses = fallback_courses(course_titles);
    CourseTableFallback {
        source: string_from_chars(&chars_of("blackboard_calendar_fallback")),
        reason,
        window_start,
        window_end,
        courses,
        events,
    }
}

/// The readable fallback report.
pub open spec fn fallback_text(f: CourseTableFallback) -> Seq<char> {
    "未能直接获取门户课表，已回退到 Blackboard 日程视图。\n"@ + "原因: "@ + f.reason@ + seq!['\n']
        + seq!['\n'] + (if f.courses@.len() > 0 {
        "[当前学期课程]\n"@ + course_lines(f.courses@, f.courses@.len()) + seq!['\n']
    } else {
        seq![]
    }) + if f.events@.len() == 0 {
        "Blackboard 日程中没有可用事件。\n"@
    } else {
        "[Blackboard 日程事件]\n"@ + event_lines(f.events@, f.events@.len())
    }
}

/// `- title` lines for the first `n` courses.
pub open spec fn course_lines(courses: Seq<CourseTableFallbackCourse>, n: nat) -> Seq<char>
    decreases n,
{
    if n == 0 || n > courses.len() {
        seq![]
    } else {
        course_lines(courses, (n - 1) as nat) + "- "@ + courses[n - 1].title@ + seq!['\n']
    }
}

/// The text of an optional string, or `default`.
pub open spec fn or_text(o: Option<String>, default: Seq<char>) -> Seq<char> {
    match o {
        Some(s) => s@,
        None => default,
    }
}

/// `- when | calendar | type | title` lines for the first `n` events.
pub open spec fn event_lines(events: Seq<CourseTableFallbackEvent>, n: nat) -> Seq<char>
    decreases n,
{
    if n == 0 || n > events.len() {
        seq![]
    } else {
        let e = events[n - 1];
        event_lines(events, (n - 1) as nat) + "- "@ + or_text(e.start, "unknown time"@) + " | "@
            + e.calendar_name@ + " | "@ + or_text(e.event_type, "事件"@) + " | "@ + e.title@
            + seq!['\n']
    }
}

fn push_or(buf: &mut String, o: &Option<String>, default: &str)
    ensures
        final(buf)@ == old(buf)@ + or_text(*o, default@),
{
    match o {
        Some(s) => push_str(buf, s.as_str()),
        None => push_str(buf, default),
    }
}

/// Renders the readable fallback report (see [`fallback_text`]).
pub fn write_fallback_text(f: &CourseTableFallback) -> (r: String)
    ensures
        r@ == fallback_text(*f),
{
    let mut buf = String::new();
    push_str(&mut buf, "未能直接获取门户课表，已回退到 Blackboard 日程视图。\n");
    push_str(&mut buf, "原因: ");
    push_str(&mut buf, f.reason.as_str());
    crate::text::push_char(&mut buf, '\n');
    crate::text::push_char(&mut buf, '\n');
    let ghost head = buf@;
    if f.courses.len() > 0 {
        push_str(&mut buf, "[当前学期课程]\n");
        let ghost list_start = buf@;
        let mut i: usize = 0;
        while i < f.courses.len()
            invariant
                i <= f.courses.len(),
                buf@ == list_start + course_lines(f.courses@, i as nat),
            decreases f.courses.len() - i,
        {
            push_str(&mut buf, "- ");
            push_str(&mut buf, f.courses[i].title.as_str());
            crate::text::push_char(&mut buf, '\n');
            assert(buf@ =~= list_start + course_lines(f.courses@, (i + 1) as nat));
            i += 1;
        }
        crate::text::push_char(&mut buf, '\n');
    }
    let ghost mid = buf@;
    if f.events.len() == 0 {
        push_str(&mut buf, "Blackboard 日程中没有可用事件。\n");
    } else {
        push_str(&mut buf, "[Blackboard 日程事件]\n");
        let ghost list_start = buf@;
        let mut i: usize = 0;
        while i < f.events.len()
            invariant
                i <= f.events.len(),
                buf@ == list_start + event_lines(f.events@, i as nat),
            decreases f.events.len() - i,
        {
            let e = &f.events[i];
            push_str(&mut buf, "- ");
            push_or(&mut buf, &e.start, "unknown time");
            push_str(&mut buf, " | ");
            push_str(&mut buf, e.calendar_name.as_str());
            push_str(&mut buf, " | ");
            push_or(&mut buf, &e.event_type, "事件");
            push_str(&mut buf, " | ");
            push_str(&mut buf, e.title.as_str());
            crate::text::push_char(&mut buf, '\n');
            assert(buf@ =~= list_start + event_lines(f.events@, (i + 1) as nat));
            i += 1;
        }
    }
    assert(buf@ =~= fallback_text(*f));
    buf
}


/// The `coursetable` command.
pub struct CommandCourseTable {
    pub force: bool,
    /// Print the raw course-table document.
    pub raw: bool,
    /// JSON output.
    pub json: bool,
    pub otp_code: String,
}

/// The payload of the JSON output: the parsed document, or the raw text when
/// it is not JSON.
pub fn course_table_item(raw_data: String, parsed: Option<JsonValue>) -> (r: JsonValue)
    ensures
        match parsed {
            Some(v) => r == v,
            None => r == JsonValue::String(raw_data),
        },
{
    match parsed {
        Some(v) => v,
        None => JsonValue::String(raw_data),
    }
}

/// The readable output of the course table: the raw text when asked for or
/// when the document has no course list, the weekly grid otherwise. `None`
/// when the grid is asked for but the text is not JSON.
pub fn course_table_output(raw: bool, raw_data: &str, parsed: Option<&JsonValue>) -> (r: Option<String>)
    ensures
        raw ==> (r matches Some(t) && t@ == raw_data@.push('\n')),
        !raw && parsed is None ==> r is None,
        !raw && parsed is Some ==> (r matches Some(t) && t@ == match course_table_text(*parsed->0) {
            Some(grid) => grid,
            None => raw_data@.push('\n'),
        }),
{
    let mut raw_line = String::new();
    push_str(&mut raw_line, raw_data);
    crate::text::push_char(&mut raw_line, '\n');
    if raw {
        return Some(raw_line);
    }
    match parsed {
        Some(doc) => match render_course_table(doc) {
            Some(grid) => Some(grid),
            None => Some(raw_line),
        },
        None => None,
    }
}

} // verus!
