use vstd::prelude::*;

use crate::content::copy_string;
use crate::sorting::{stable_sort, stably_sorted, SortKey};
use crate::style::{
    banner, blue_bold, bullet, pad2, push_banner, push_blue_bold, push_bullet, push_pad2,
    push_styled, styled, Styles,
};
use crate::text::{compare_text, lemma_text_order_laws, push_char, push_str, text_order};

verus! {

/// One course in the course list.
pub struct CourseListRecord {
    pub index: usize,
    pub title: String,
}

/// One menu entry of a course page.
pub struct CourseEntryRecord {
    pub title: String,
    pub url: String,
}

impl SortKey for CourseEntryRecord {
    open spec fn key_le(self, other: Self) -> bool {
        text_order(self.title@, other.title@) <= 0
    }

    fn le(&self, other: &Self) -> (r: bool) {
        compare_text(self.title.as_str(), other.title.as_str()) <= 0
    }

    proof fn lemma_total(a: Self, b: Self) {
        lemma_text_order_laws(a.title@, b.title@, b.title@);
    }

    proof fn lemma_trans(a: Self, b: Self, c: Self) {
        lemma_text_order_laws(a.title@, b.title@, c.title@);
    }
}

/// Orders course entries by title; entries with equal titles keep their order.
pub fn sort_entries(entries: &mut Vec<CourseEntryRecord>)
    ensures
        stably_sorted(old(entries)@, final(entries)@),
{
    stable_sort(entries);
}

/// Course entries are ordered by title: in any stable sort, titles never
/// decrease.
pub proof fn lemma_entries_by_title(input: Seq<CourseEntryRecord>, out: Seq<CourseEntryRecord>, i: int, j: int)
    requires
        stably_sorted(input, out),
        0 <= i < j < out.len(),
    ensures
        !crate::text::text_lt(out[j].title@, out[i].title@),
{
    assert(out[i].key_le(out[j]));
    crate::text::lemma_text_order_laws(out[i].title@, out[j].title@, out[j].title@);
}


/// The course list records: each course title with its position in the list.
pub fn course_list_records(titles: &Vec<String>) -> (out: Vec<CourseListRecord>)
    ensures
        out@.len() == titles@.len(),
        forall|i: int|
            0 <= i < out@.len() ==> (#[trigger] out@[i]).index == i && out@[i].title@ == titles@[i]@,
{
    let mut out: Vec<CourseListRecord> = Vec::new();
    let mut i: usize = 0;
    while i < titles.len()
        invariant
            i <= titles@.len(),
            out@.len() == i,
            forall|k: int|
                0 <= k < i ==> (#[trigger] out@[k]).index == k && out@[k].title@ == titles@[k]@,
        decreases titles.len() - i,
    {
        out.push(CourseListRecord { index: i, title: copy_string(&titles[i]) });
        i += 1;
    }
    out
}

/// The menu entries of a course page as records, ordered by title; entries
/// with equal titles keep their page order.
pub fn course_entry_records(pairs: &Vec<(String, String)>) -> (out: Vec<CourseEntryRecord>)
    ensures
        exists|unsorted: Seq<CourseEntryRecord>|
            {
                &&& unsorted.len() == pairs@.len()
                &&& forall|k: int|
                    0 <= k < unsorted.len() ==> (#[trigger] unsorted[k]).title@ == pairs@[k].0@
                        && unsorted[k].url@ == pairs@[k].1@
                &&& stably_sorted(unsorted, out@)
            },
{
    let mut out: Vec<CourseEntryRecord> = Vec::new();
    let mut i: usize = 0;
    while i < pairs.len()
        invariant
            i <= pairs@.len(),
            out@.len() == i,
            forall|k: int|
                0 <= k < i ==> (#[trigger] out@[k]).title@ == pairs@[k].0@ && out@[k].url@
                    == pairs@[k].1@,
        decreases pairs.len() - i,
    {
        out.push(
            CourseEntryRecord { title: copy_string(&pairs[i].0), url: copy_string(&pairs[i].1) },
        );
        i += 1;
    }
    sort_entries(&mut out);
    out
}

/// The `course` command.
pub struct CommandCourse {
    pub force: bool,
    pub command: CourseCommands,
    /// Markdown output.
    pub json: bool,
    pub otp_code: String,
}

/// The `course` subcommands.
pub enum CourseCommands {
    List { all_term: bool },
    Entries { course_index: usize, all_term: bool },
}

/// The operation a `course` command runs.
pub enum CourseRun {
    List { force: bool, cur_term: bool, otp_code: String, markdown: bool },
    Entries { force: bool, course_index: usize, cur_term: bool, otp_code: String, markdown: bool },
}

impl CommandCourse {
    /// The operation this command runs.
    pub fn plan(self) -> (r: CourseRun)
        ensures
            match self.command {
                CourseCommands::List { all_term } => r == CourseRun::List {
                    force: self.force,
                    cur_term: !all_term,
                    otp_code: self.otp_code,
                    markdown: self.json,
                },
                CourseCommands::Entries { course_index, all_term } => r == CourseRun::Entries {
                    force: self.force,
                    course_index,
                    cur_term: !all_term,
                    otp_code: self.otp_code,
                    markdown: self.json,
                },
            },
    {
        match self.command {
            CourseCommands::List { all_term } => CourseRun::List {
                force: self.force,
                cur_term: !all_term,
                otp_code: self.otp_code,
                markdown: self.json,
            },
            CourseCommands::Entries { course_index, all_term } => CourseRun::Entries {
                force: self.force,
                course_index,
                cur_term: !all_term,
                otp_code: self.otp_code,
                markdown: self.json,
            },
        }
    }
}


/// One line of the readable course list.
pub open spec fn course_line(st: Styles, r: CourseListRecord) -> Seq<char> {
    styled(st.green, seq!['['] + pad2(r.index as nat) + seq![']']) + seq![' '] + r.title@ + seq!['\n']
}

/// The lines of the first `n` courses.
pub open spec fn course_lines(st: Styles, records: Seq<CourseListRecord>, n: nat) -> Seq<char>
    decreases n,
{
    if n == 0 || n > records.len() {
        seq![]
    } else {
        course_lines(st, records, (n - 1) as nat) + course_line(st, records[n - 1])
    }
}

/// The readable course list: a banner, a blank line, one numbered line per course.
pub open spec fn course_list_text(st: Styles, records: Seq<CourseListRecord>) -> Seq<char> {
    banner(st, "课程列表"@) + "\n\n"@ + course_lines(st, records, records.len())
}

fn push_course_line(buf: &mut String, st: &Styles, r: &CourseListRecord)
    ensures
        final(buf)@ == old(buf)@ + course_line(*st, *r),
{
    let ghost start = buf@;
    push_str(buf, st.green.on.as_str());
    push_char(buf, '[');
    push_pad2(buf, r.index);
    push_char(buf, ']');
    push_str(buf, st.green.off.as_str());
    push_char(buf, ' ');
    push_str(buf, r.title.as_str());
    push_char(buf, '\n');
    assert(buf@ =~= start + course_line(*st, *r));
}

/// Renders the readable course list (see [`course_list_text`]).
pub fn render_course_list(st: &Styles, records: &Vec<CourseListRecord>) -> (r: String)
    ensures
        r@ == course_list_text(*st, records@),
{
    let mut buf = String::new();
    push_banner(&mut buf, st, "课程列表");
    push_str(&mut buf, "\n\n");
    let ghost head = buf@;
    let mut i: usize = 0;
    while i < records.len()
        invariant
            i <= records.len(),
            buf@ == head + course_lines(*st, records@, i as nat),
        decreases records.len() - i,
    {
        push_course_line(&mut buf, st, &records[i]);
        assert(buf@ =~= head + course_lines(*st, records@, (i + 1) as nat));
        i += 1;
    }
    assert(buf@ =~= course_list_text(*st, records@));
    buf
}

/// One line of the readable entry list.
pub open spec fn entry_line(st: Styles, e: CourseEntryRecord) -> Seq<char> {
    bullet(st) + e.title@ + seq![' '] + styled(st.dim, e.url@) + seq!['\n']
}

/// The lines of the first `n` entries.
pub open spec fn entry_lines(st: Styles, entries: Seq<CourseEntryRecord>, n: nat) -> Seq<char>
    decreases n,
{
    if n == 0 || n > entries.len() {
        seq![]
    } else {
        entry_lines(st, entries, (n - 1) as nat) + entry_line(st, entries[n - 1])
    }
}

/// The readable entry list of a course: its title, then one bullet per entry.
pub open spec fn entries_text(st: Styles, course_title: Seq<char>, entries: Seq<CourseEntryRecord>) -> Seq<char> {
    blue_bold(st, course_title) + seq!['\n'] + entry_lines(st, entries, entries.len())
}

fn push_entry_line(buf: &mut String, st: &Styles, e: &CourseEntryRecord)
    ensures
        final(buf)@ == old(buf)@ + entry_line(*st, *e),
{
    let ghost start = buf@;
    push_bullet(buf, st);
    push_str(buf, e.title.as_str());
    push_char(buf, ' ');
    push_styled(buf, &st.dim, e.url.as_str());
    push_char(buf, '\n');
    assert(buf@ =~= start + entry_line(*st, *e));
}

/// Renders the readable entry list (see [`entries_text`]).
pub fn render_entries(st: &Styles, course_title: &str, entries: &Vec<CourseEntryRecord>) -> (r: String)
    ensures
        r@ == entries_text(*st, course_title@, entries@),
{
    let mut buf = String::new();
    push_blue_bold(&mut buf, st, course_title);
    push_char(&mut buf, '\n');
    let ghost head = buf@;
    let mut i: usize = 0;
    while i < entries.len()
        invariant
            i <= entries.len(),
            buf@ == head + entry_lines(*st, entries@, i as nat),
        decreases entries.len() - i,
    {
        push_entry_line(&mut buf, st, &entries[i]);
        assert(buf@ =~= head + entry_lines(*st, entries@, (i + 1) as nat));
        i += 1;
    }
    assert(buf@ =~= entries_text(*st, course_title@, entries@));
    buf
}

} // verus!
