use vstd::prelude::*;

use crate::sorting::{stable_sort, stably_sorted, SortKey};
use crate::style::{
    banner, blue_bold, pad2, push_banner, push_blue_bold, push_pad2, push_styled, styled, Style, Styles,
};
use crate::text::{
    compare_opt_text, compare_text, decimal, lemma_opt_text_order_laws, lemma_text_order_laws, num_order,
    opt_text_order, opt_view, text_lt, text_order, then_order,
};

verus! {

/// One announcement in the announcement list.
pub struct AnnouncementListRecord {
    pub course_title: String,
    pub id: String,
    pub title: String,
    pub published_at: Option<String>,
    pub attachment_count: usize,
}

impl SortKey for AnnouncementListRecord {
    open spec fn key_le(self, other: Self) -> bool {
        then_order(
            opt_text_order(opt_view(other.published_at), opt_view(self.published_at)),
            then_order(
                text_order(self.course_title@, other.course_title@),
                then_order(text_order(self.title@, other.title@), text_order(self.id@, other.id@)),
            ),
        ) <= 0
    }

    fn le(&self, other: &Self) -> (r: bool) {
        let c = compare_opt_text(&other.published_at, &self.published_at);
        if c != 0 {
            return c < 0;
        }
        let c = compare_text(self.course_title.as_str(), other.course_title.as_str());
        if c != 0 {
            return c < 0;
        }
        let c = compare_text(self.title.as_str(), other.title.as_str());
        if c != 0 {
            return c < 0;
        }
        compare_text(self.id.as_str(), other.id.as_str()) <= 0
    }

    proof fn lemma_total(a: Self, b: Self) {
        lemma_opt_text_order_laws(opt_view(b.published_at), opt_view(a.published_at), opt_view(a.published_at));
        lemma_text_order_laws(a.course_title@, b.course_title@, b.course_title@);
        lemma_text_order_laws(a.title@, b.title@, b.title@);
        lemma_text_order_laws(a.id@, b.id@, b.id@);
    }

    proof fn lemma_trans(a: Self, b: Self, c: Self) {
        lemma_opt_text_order_laws(opt_view(c.published_at), opt_view(b.published_at), opt_view(a.published_at));
        lemma_text_order_laws(a.course_title@, b.course_title@, c.course_title@);
        lemma_text_order_laws(a.title@, b.title@, c.title@);
        lemma_text_order_laws(a.id@, b.id@, c.id@);
    }
}

/// Orders announcement records newest first (records without a date last),
/// then by course title, title and id.
pub fn sort_announcement_records(records: &mut Vec<AnnouncementListRecord>)
    ensures
        stably_sorted(old(records)@, final(records)@),
{
    stable_sort(records);
}

/// The announcement list is newest first: in any stable sort of the records,
/// a dated record never follows an undated one, and of two dated records the
/// earlier one never has the later publication text.
pub proof fn lemma_announcement_records_newest_first(
    input: Seq<AnnouncementListRecord>,
    out: Seq<AnnouncementListRecord>,
    i: int,
    j: int,
)
    requires
        stably_sorted(input, out),
        0 <= i < j < out.len(),
    ensures
        out[i].published_at is None ==> out[j].published_at is None,
        out[i].published_at is Some && out[j].published_at is Some ==> !text_lt(
            out[i].published_at->0@,
            out[j].published_at->0@,
        ),
        ({
            let (x, y) = (out[i], out[j]);
            let same_time = opt_view(x.published_at) == opt_view(y.published_at);
            &&& same_time ==> !text_lt(y.course_title@, x.course_title@)
            &&& same_time && x.course_title@ == y.course_title@ ==> !text_lt(y.title@, x.title@)
            &&& same_time && x.course_title@ == y.course_title@ && x.title@ == y.title@ ==> !text_lt(
                y.id@,
                x.id@,
            )
        }),
{
    let x = out[i];
    let y = out[j];
    assert(x.key_le(y));
    let first = opt_text_order(opt_view(y.published_at), opt_view(x.published_at));
    assert(first <= 0);
    lemma_opt_text_order_laws(opt_view(y.published_at), opt_view(x.published_at), opt_view(x.published_at));
    if x.published_at is Some && y.published_at is Some {
        let a = x.published_at->0@;
        let b = y.published_at->0@;
        assert(opt_view(x.published_at) == Some(a));
        assert(opt_view(y.published_at) == Some(b));
        assert(text_order(b, a) <= 0);
        lemma_text_order_laws(b, a, a);
        assert(text_order(a, b) >= 0);
    }
    lemma_text_order_laws(x.course_title@, y.course_title@, y.course_title@);
    lemma_text_order_laws(x.title@, y.title@, y.title@);
    lemma_text_order_laws(x.id@, y.id@, y.id@);
}

/// A fetched announcement with its publication time (seconds since the epoch,
/// when known), course title, title and id.
pub struct AnnouncementItem<T> {
    pub published: Option<i64>,
    pub course_title: String,
    pub title: String,
    pub id: String,
    pub item: T,
}

/// Three-way comparison of publication times for the announcement feed:
/// newest first, undated announcements last.
pub open spec fn feed_order(a: Option<i64>, b: Option<i64>) -> int {
    match (a, b) {
        (Some(ta), Some(tb)) => num_order(tb as int, ta as int),
        (Some(_), None) => -1,
        (None, Some(_)) => 1,
        (None, None) => 0,
    }
}

impl<T> SortKey for AnnouncementItem<T> {
    open spec fn key_le(self, other: Self) -> bool {
        then_order(
            feed_order(self.published, other.published),
            then_order(
                text_order(self.course_title@, other.course_title@),
                then_order(text_order(self.title@, other.title@), text_order(self.id@, other.id@)),
            ),
        ) <= 0
    }

    fn le(&self, other: &Self) -> (r: bool) {
        match (self.published, other.published) {
            (Some(ta), Some(tb)) => {
                if ta != tb {
                    return tb < ta;
                }
            },
            (Some(_), None) => {
                return true;
            },
            (None, Some(_)) => {
                return false;
            },
            (None, None) => {},
        }
        let c = compare_text(self.course_title.as_str(), other.course_title.as_str());
        if c != 0 {
            return c < 0;
        }
        let c = compare_text(self.title.as_str(), other.title.as_str());
        if c != 0 {
            return c < 0;
        }
        compare_text(self.id.as_str(), other.id.as_str()) <= 0
    }

    proof fn lemma_total(a: Self, b: Self) {
        lemma_text_order_laws(a.course_title@, b.course_title@, b.course_title@);
        lemma_text_order_laws(a.title@, b.title@, b.title@);
        lemma_text_order_laws(a.id@, b.id@, b.id@);
    }

    proof fn lemma_trans(a: Self, b: Self, c: Self) {
        lemma_text_order_laws(a.course_title@, b.course_title@, c.course_title@);
        lemma_text_order_laws(a.title@, b.title@, c.title@);
        lemma_text_order_laws(a.id@, b.id@, c.id@);
    }
}

/// Orders fetched announcements as the announcement list shows them: newest
/// first (undated ones last), then by course title, title and id.
pub fn sort_announcements_owned<T>(items: Vec<AnnouncementItem<T>>) -> (out: Vec<AnnouncementItem<T>>)
    ensures
        stably_sorted(items@, out@),
{
    let mut items = items;
    stable_sort(&mut items);
    items
}

/// The announcement feed is newest first: in any stable sort, a dated
/// announcement never follows an undated one, dated ones come in
/// non-increasing time, and equal times are ordered by course title.
pub proof fn lemma_announcements_newest_first<T>(
    input: Seq<AnnouncementItem<T>>,
    out: Seq<AnnouncementItem<T>>,
    i: int,
    j: int,
)
    requires
        stably_sorted(input, out),
        0 <= i < j < out.len(),
    ensures
        out[i].published is None ==> out[j].published is None,
        out[i].published is Some && out[j].published is Some ==> out[i].published->0
            >= out[j].published->0,
        out[i].published == out[j].published ==> !text_lt(out[j].course_title@, out[i].course_title@),
        out[i].published == out[j].published && out[i].course_title@ == out[j].course_title@
            ==> !text_lt(out[j].title@, out[i].title@),
        out[i].published == out[j].published && out[i].course_title@ == out[j].course_title@
            && out[i].title@ == out[j].title@ ==> !text_lt(out[j].id@, out[i].id@),
{
    let x = out[i];
    let y = out[j];
    assert(x.key_le(y));
    assert(feed_order(x.published, y.published) <= 0);
    lemma_text_order_laws(x.course_title@, y.course_title@, y.course_title@);
    lemma_text_order_laws(x.title@, y.title@, y.title@);
    lemma_text_order_laws(x.id@, y.id@, y.id@);
}

/// The position of the first announcement with the given id, if any.
pub fn find_announcement<T>(items: &Vec<AnnouncementItem<T>>, id: &str) -> (r: Option<usize>)
    ensures
        match r {
            Some(k) => k < items@.len() && items@[k as int].id@ == id@ && forall|j: int|
                0 <= j < k ==> (#[trigger] items@[j]).id@ != id@,
            None => forall|j: int| 0 <= j < items@.len() ==> (#[trigger] items@[j]).id@ != id@,
        },
{
    let mut i: usize = 0;
    while i < items.len()
        invariant
            i <= items@.len(),
            forall|j: int| 0 <= j < i ==> (#[trigger] items@[j]).id@ != id@,
        decreases items.len() - i,
    {
        if crate::text::same_text(items[i].id.as_str(), id) {
            return Some(i);
        }
        i += 1;
    }
    None
}

/// The `announcement` command.
pub struct CommandAnnouncement {
    pub force: bool,
    pub command: AnnouncementCommands,
    /// Markdown output.
    pub json: bool,
    pub otp_code: String,
}

/// The `announcement` subcommands.
pub enum AnnouncementCommands {
    List { all_term: bool },
    Show { id: String, all_term: bool },
}

/// The operation an `announcement` command runs; `cur_term` limits it to the
/// current term.
pub enum AnnouncementRun {
    List { force: bool, cur_term: bool, otp_code: String, markdown: bool },
    Show { force: bool, cur_term: bool, id: String, otp_code: String, markdown: bool },
}

impl CommandAnnouncement {
    /// The operation this command runs.
    pub fn plan(self) -> (r: AnnouncementRun)
        ensures
            match self.command {
                AnnouncementCommands::List { all_term } => r == AnnouncementRun::List {
                    force: self.force,
                    cur_term: !all_term,
                    otp_code: self.otp_code,
                    markdown: self.json,
                },
                AnnouncementCommands::Show { id, all_term } => r == AnnouncementRun::Show {
                    force: self.force,
                    cur_term: !all_term,
                    id,
                    otp_code: self.otp_code,
                    markdown: self.json,
                },
            },
    {
        match self.command {
            AnnouncementCommands::List { all_term } => AnnouncementRun::List {
                force: self.force,
                cur_term: !all_term,
                otp_code: self.otp_code,
                markdown: self.json,
            },
            AnnouncementCommands::Show { id, all_term } => AnnouncementRun::Show {
                force: self.force,
                cur_term: !all_term,
                id,
                otp_code: self.otp_code,
                markdown: self.json,
            },
        }
    }
}


/// An attachment of an announcement.
pub struct AnnouncementAttachmentRecord {
    pub name: String,
    pub url: String,
}

/// The full content of one announcement.
pub struct AnnouncementDetailRecord {
    pub course_title: String,
    pub id: String,
    pub title: String,
    pub published_at: Option<String>,
    pub descriptions: Vec<String>,
    pub attachments: Vec<AnnouncementAttachmentRecord>,
}

/// Each text followed by a line break.
pub open spec fn lines_of(lines: Seq<String>, n: nat) -> Seq<char>
    decreases n,
{
    if n == 0 || n > lines.len() {
        seq![]
    } else {
        lines_of(lines, (n - 1) as nat) + lines[n - 1]@ + seq!['\n']
    }
}

/// `[附件] name` lines for the first `n` attachments.
pub open spec fn attachment_lines(st: Styles, atts: Seq<AnnouncementAttachmentRecord>, n: nat) -> Seq<char>
    decreases n,
{
    if n == 0 || n > atts.len() {
        seq![]
    } else {
        attachment_lines(st, atts, (n - 1) as nat) + styled(st.dim, "[附件]"@) + seq![' ']
            + styled(st.underline, atts[n - 1].name@) + seq!['\n']
    }
}

/// `course > title` in the list and detail views.
pub open spec fn course_and_title(st: Styles, course: Seq<char>, title: Seq<char>) -> Seq<char> {
    blue_bold(st, course) + seq![' '] + styled(st.dim, seq!['>']) + seq![' '] + title
}

/// The heading of the detail view: course and title, then the id.
pub open spec fn detail_head(st: Styles, d: AnnouncementDetailRecord) -> Seq<char> {
    course_and_title(st, d.course_title@, blue_bold(st, d.title@)) + seq!['\n'] + styled(st.dim, "ID:"@)
        + seq![' '] + d.id@ + seq!['\n']
}

/// The publication line, when the time is known.
pub open spec fn time_line(st: Styles, d: AnnouncementDetailRecord) -> Seq<char> {
    match d.published_at {
        Some(t) => styled(st.dim, "发布时间:"@) + seq![' '] + t@ + seq!['\n'],
        None => seq![],
    }
}

/// The description block: a blank line and the lines, when there are any.
pub open spec fn description_block(d: AnnouncementDetailRecord) -> Seq<char> {
    if d.descriptions@.len() > 0 {
        seq!['\n'] + lines_of(d.descriptions@, d.descriptions@.len())
    } else {
        seq![]
    }
}

/// The attachment block: a blank line and the names, when there are any.
pub open spec fn attachment_block(st: Styles, d: AnnouncementDetailRecord) -> Seq<char> {
    if d.attachments@.len() > 0 {
        seq!['\n'] + attachment_lines(st, d.attachments@, d.attachments@.len())
    } else {
        seq![]
    }
}

/// The readable detail of an announcement: course and title, id, publication
/// time when known, the description lines and the attachment names, each
/// group after a blank line, and a closing blank line.
pub open spec fn announcement_detail_text(st: Styles, d: AnnouncementDetailRecord) -> Seq<char> {
    detail_head(st, d) + time_line(st, d) + description_block(d) + attachment_block(st, d) + seq!['\n']
}

/// Appends the course part `course > ` of the list and detail views.
pub fn push_course_and(buf: &mut String, st: &Styles, course: &str)
    ensures
        final(buf)@ == old(buf)@ + blue_bold(*st, course@) + seq![' '] + styled(st.dim, seq!['>'])
            + seq![' '],
{
    let ghost start = buf@;
    push_blue_bold(buf, st, course);
    crate::text::push_char(buf, ' ');
    push_styled(buf, &st.dim, ">");
    crate::text::push_char(buf, ' ');
    proof {
        reveal_strlit(">");
    }
    assert(buf@ =~= start + blue_bold(*st, course@) + seq![' '] + styled(st.dim, seq!['>']) + seq![' ']);
}

fn push_detail_head(buf: &mut String, st: &Styles, d: &AnnouncementDetailRecord)
    ensures
        final(buf)@ == old(buf)@ + detail_head(*st, *d),
{
    let ghost start = buf@;
    push_course_and(buf, st, d.course_title.as_str());
    push_blue_bold(buf, st, d.title.as_str());
    crate::text::push_char(buf, '\n');
    push_styled(buf, &st.dim, "ID:");
    crate::text::push_char(buf, ' ');
    crate::text::push_str(buf, d.id.as_str());
    crate::text::push_char(buf, '\n');
    assert(buf@ =~= start + detail_head(*st, *d));
}

fn push_time_line(buf: &mut String, st: &Styles, d: &AnnouncementDetailRecord)
    ensures
        final(buf)@ == old(buf)@ + time_line(*st, *d),
{
    let ghost start = buf@;
    match &d.published_at {
        Some(t) => {
            push_styled(buf, &st.dim, "发布时间:");
            crate::text::push_char(buf, ' ');
            crate::text::push_str(buf, t.as_str());
            crate::text::push_char(buf, '\n');
        },
        None => {},
    }
    assert(buf@ =~= start + time_line(*st, *d));
}

fn push_description_block(buf: &mut String, d: &AnnouncementDetailRecord)
    ensures
        final(buf)@ == old(buf)@ + description_block(*d),
{
    let ghost start = buf@;
    if d.descriptions.len() > 0 {
        crate::text::push_char(buf, '\n');
        let ghost list_start = buf@;
        let mut i: usize = 0;
        while i < d.descriptions.len()
            invariant
                i <= d.descriptions.len(),
                buf@ == list_start + lines_of(d.descriptions@, i as nat),
            decreases d.descriptions.len() - i,
        {
            crate::text::push_str(buf, d.descriptions[i].as_str());
            crate::text::push_char(buf, '\n');
            assert(buf@ =~= list_start + lines_of(d.descriptions@, (i + 1) as nat));
            i += 1;
        }
    }
    assert(buf@ =~= start + description_block(*d));
}

fn push_attachment_block(buf: &mut String, st: &Styles, d: &AnnouncementDetailRecord)
    ensures
        final(buf)@ == old(buf)@ + attachment_block(*st, *d),
{
    let ghost start = buf@;
    if d.attachments.len() > 0 {
        crate::text::push_char(buf, '\n');
        let ghost list_start = buf@;
        let mut i: usize = 0;
        while i < d.attachments.len()
            invariant
                i <= d.attachments.len(),
                buf@ == list_start + attachment_lines(*st, d.attachments@, i as nat),
            decreases d.attachments.len() - i,
        {
            push_styled(buf, &st.dim, "[附件]");
            crate::text::push_char(buf, ' ');
            push_styled(buf, &st.underline, d.attachments[i].name.as_str());
            crate::text::push_char(buf, '\n');
            assert(buf@ =~= list_start + attachment_lines(*st, d.attachments@, (i + 1) as nat));
            i += 1;
        }
    }
    assert(buf@ =~= start + attachment_block(*st, *d));
}

/// Appends the readable detail of an announcement (see
/// [`announcement_detail_text`]).
pub fn write_announcement_detail(buf: &mut String, st: &Styles, d: &AnnouncementDetailRecord)
    ensures
        final(buf)@ == old(buf)@ + announcement_detail_text(*st, *d),
{
    let ghost start = buf@;
    push_detail_head(buf, st, d);
    push_time_line(buf, st, d);
    push_description_block(buf, d);
    push_attachment_block(buf, st, d);
    crate::text::push_char(buf, '\n');
    assert(buf@ =~= start + announcement_detail_text(*st, *d));
}

/// The readable announcement view: a banner, a blank line, then the detail.
pub open spec fn announcement_show_text(st: Styles, d: AnnouncementDetailRecord) -> Seq<char> {
    banner(st, "公告详情"@) + seq!['\n', '\n'] + announcement_detail_text(st, d)
}

/// Renders the readable announcement view (see [`announcement_show_text`]).
pub fn render_announcement_show(st: &Styles, d: &AnnouncementDetailRecord) -> (r: String)
    ensures
        r@ == announcement_show_text(*st, *d),
{
    let mut buf = String::new();
    push_banner(&mut buf, st, "公告详情");
    crate::text::push_char(&mut buf, '\n');
    crate::text::push_char(&mut buf, '\n');
    write_announcement_detail(&mut buf, st, d);
    assert(buf@ =~= announcement_show_text(*st, *d));
    buf
}

/// The attachment count of a list line, when there are attachments.
pub open spec fn attachment_note(st: Styles, count: usize) -> Seq<char> {
    if count > 0 {
        " ("@ + styled(st.green, decimal(count as nat) + " 个附件"@) + seq![')']
    } else {
        seq![]
    }
}

/// One line of the brief announcement list (`index` counts from 1).
pub open spec fn brief_line(st: Styles, index: nat, r: AnnouncementListRecord) -> Seq<char> {
    styled(st.green, seq!['['] + pad2(index) + seq![']']) + seq![' '] + course_and_title(
        st,
        r.course_title@,
        r.title@,
    ) + attachment_note(st, r.attachment_count) + seq![' '] + styled(st.dim, r.id@) + seq!['\n']
}

/// The lines for the first `n` announcements.
pub open spec fn brief_lines(st: Styles, records: Seq<AnnouncementListRecord>, n: nat) -> Seq<char>
    decreases n,
{
    if n == 0 || n > records.len() {
        seq![]
    } else {
        brief_lines(st, records, (n - 1) as nat) + brief_line(st, n, records[n - 1])
    }
}

/// The header of a titled list: `> title (count) <` and a blank line.
pub open spec fn list_header(st: Styles, title: Seq<char>, count: nat) -> Seq<char> {
    styled(st.dim, seq!['>']) + seq![' '] + styled(st.bold, title + " ("@ + decimal(count) + seq![')'])
        + seq![' '] + styled(st.dim, seq!['<']) + "\n\n"@
}

/// The brief announcement list: a header with the count, then one numbered
/// line per announcement.
pub open spec fn brief_list_text(st: Styles, records: Seq<AnnouncementListRecord>) -> Seq<char> {
    list_header(st, "课程公告"@, records.len()) + brief_lines(st, records, records.len())
}

fn push_list_header(buf: &mut String, st: &Styles, title: &str, count: usize)
    ensures
        final(buf)@ == old(buf)@ + list_header(*st, title@, count as nat),
{
    let ghost start = buf@;
    push_styled(buf, &st.dim, ">");
    crate::text::push_char(buf, ' ');
    crate::text::push_str(buf, st.bold.on.as_str());
    crate::text::push_str(buf, title);
    crate::text::push_str(buf, " (");
    crate::text::push_decimal(buf, count);
    crate::text::push_char(buf, ')');
    crate::text::push_str(buf, st.bold.off.as_str());
    crate::text::push_char(buf, ' ');
    push_styled(buf, &st.dim, "<");
    crate::text::push_str(buf, "\n\n");
    proof {
        reveal_strlit(">");
        reveal_strlit("<");
    }
    assert(buf@ =~= start + list_header(*st, title@, count as nat));
}

fn push_attachment_note(buf: &mut String, st: &Styles, count: usize)
    ensures
        final(buf)@ == old(buf)@ + attachment_note(*st, count),
{
    let ghost start = buf@;
    if count > 0 {
        crate::text::push_str(buf, " (");
        crate::text::push_str(buf, st.green.on.as_str());
        crate::text::push_decimal(buf, count);
        crate::text::push_str(buf, " 个附件");
        crate::text::push_str(buf, st.green.off.as_str());
        crate::text::push_char(buf, ')');
    }
    assert(buf@ =~= start + attachment_note(*st, count));
}

fn push_brief_line(buf: &mut String, st: &Styles, index: usize, r: &AnnouncementListRecord)
    ensures
        final(buf)@ == old(buf)@ + brief_line(*st, index as nat, *r),
{
    let ghost start = buf@;
    crate::text::push_str(buf, st.green.on.as_str());
    crate::text::push_char(buf, '[');
    push_pad2(buf, index);
    crate::text::push_char(buf, ']');
    crate::text::push_str(buf, st.green.off.as_str());
    crate::text::push_char(buf, ' ');
    let ghost a = buf@;
    assert(a =~= start + styled(st.green, seq!['['] + pad2(index as nat) + seq![']']) + seq![' ']);
    push_course_and(buf, st, r.course_title.as_str());
    crate::text::push_str(buf, r.title.as_str());
    let ghost b = buf@;
    assert(b =~= a + course_and_title(*st, r.course_title@, r.title@));
    push_attachment_note(buf, st, r.attachment_count);
    crate::text::push_char(buf, ' ');
    push_styled(buf, &st.dim, r.id.as_str());
    crate::text::push_char(buf, '\n');
    assert(buf@ =~= start + brief_line(*st, index as nat, *r));
}

/// Renders the brief announcement list (see [`brief_list_text`]).
pub fn list_brief(st: &Styles, records: &Vec<AnnouncementListRecord>) -> (r: String)
    ensures
        r@ == brief_list_text(*st, records@),
{
    let mut buf = String::new();
    push_list_header(&mut buf, st, "课程公告", records.len());
    let ghost head = buf@;
    let mut i: usize = 0;
    while i < records.len()
        invariant
            i <= records.len(),
            buf@ == head + brief_lines(*st, records@, i as nat),
        decreases records.len() - i,
    {
        push_brief_line(&mut buf, st, i + 1, &records[i]);
        assert(buf@ =~= head + brief_lines(*st, records@, (i + 1) as nat));
        i += 1;
    }
    assert(buf@ =~= brief_list_text(*st, records@));
    buf
}
} // verus!
