use vstd::prelude::*;

use crate::sorting::{stable_sort, stably_sorted, SortKey};
use crate::style::{banner, blue_bold, push_banner, push_blue_bold, push_styled, styled, Styles};
use crate::text::{
    compare_text, decimal, lemma_text_order_laws, push_char, push_decimal, push_str, text_lt, text_order,
    then_order,
};

verus! {

/// One document in the document list.
pub struct DocumentListRecord {
    pub course_title: String,
    pub id: String,
    pub title: String,
    pub attachment_count: usize,
    pub description_count: usize,
}

impl SortKey for DocumentListRecord {
    open spec fn key_le(self, other: Self) -> bool {
        then_order(
            text_order(self.title@, other.title@),
            then_order(
                text_order(self.course_title@, other.course_title@),
                text_order(self.id@, other.id@),
            ),
        ) <= 0
    }

    fn le(&self, other: &Self) -> (r: bool) {
        let c = compare_text(self.title.as_str(), other.title.as_str());
        if c != 0 {
            return c < 0;
        }
        let c = compare_text(self.course_title.as_str(), other.course_title.as_str());
        if c != 0 {
            return c < 0;
        }
        compare_text(self.id.as_str(), other.id.as_str()) <= 0
    }

    proof fn lemma_total(a: Self, b: Self) {
        lemma_text_order_laws(a.title@, b.title@, b.title@);
        lemma_text_order_laws(a.course_title@, b.course_title@, b.course_title@);
        lemma_text_order_laws(a.id@, b.id@, b.id@);
    }

    proof fn lemma_trans(a: Self, b: Self, c: Self) {
        lemma_text_order_laws(a.title@, b.title@, c.title@);
        lemma_text_order_laws(a.course_title@, b.course_title@, c.course_title@);
        lemma_text_order_laws(a.id@, b.id@, c.id@);
    }
}

/// Orders documents by title, then course title, then id.
pub fn sort_document_records(records: &mut Vec<DocumentListRecord>)
    ensures
        stably_sorted(old(records)@, final(records)@),
{
    stable_sort(records);
}


/// The document list is ordered by title first: in any stable sort of the
/// records, titles never decrease, and the course title only orders records
/// whose titles are equal.
pub proof fn lemma_documents_by_title(input: Seq<DocumentListRecord>, out: Seq<DocumentListRecord>, i: int, j: int)
    requires
        stably_sorted(input, out),
        0 <= i < j < out.len(),
    ensures
        !text_lt(out[j].title@, out[i].title@),
        out[i].title@ == out[j].title@ ==> !text_lt(out[j].course_title@, out[i].course_title@),
        out[i].title@ == out[j].title@ && out[i].course_title@ == out[j].course_title@ ==> !text_lt(
            out[j].id@,
            out[i].id@,
        ),
{
    let x = out[i];
    let y = out[j];
    assert(x.key_le(y));
    lemma_text_order_laws(x.title@, y.title@, y.title@);
    lemma_text_order_laws(x.course_title@, y.course_title@, y.course_title@);
    lemma_text_order_laws(x.id@, y.id@, y.id@);
}

/// The `document` command.
pub struct CommandDocument {
    pub force: bool,
    pub command: DocumentCommands,
    /// Markdown output.
    pub json: bool,
    pub otp_code: String,
}

/// The `document` subcommands.
pub enum DocumentCommands {
    List { all_term: bool },
    Show { id: String, all_term: bool },
    Download { id: Option<String>, dir: String, all_term: bool },
}

/// How the document to download is chosen.
pub enum DocumentChoice {
    /// The document with this id.
    ById(String),
    /// Ask the user to pick one.
    Interactive,
    /// Markdown output needs an explicit id: report this error.
    MissingId,
}

/// The document to download: by id when one is given; otherwise chosen
/// interactively, which Markdown output does not allow.
pub fn document_choice(id: Option<String>, markdown: bool) -> (r: DocumentChoice)
    ensures
        match id {
            Some(i) => r == DocumentChoice::ById(i),
            None => if markdown {
                r is MissingId
            } else {
                r is Interactive
            },
        },
{
    match id {
        Some(i) => DocumentChoice::ById(i),
        None => if markdown {
            DocumentChoice::MissingId
        } else {
            DocumentChoice::Interactive
        },
    }
}


/// A fetched document with its title and id.
pub struct DocumentItem<T> {
    pub title: String,
    pub id: String,
    pub item: T,
}

impl<T> SortKey for DocumentItem<T> {
    open spec fn key_le(self, other: Self) -> bool {
        text_order(self.title@, other.title@) <= 0
    }

    fn le(&self, other: &Self) -> (r: bool) {
        compare_text(self.title.as_str(), other.title.as_str()) <= 0
    }

    proof fn lemma_total(a: Self, b: Self) {
        lemma_text_order_laws(a.title@, b.title@, b.title@);
    }

    proof fn lemma_trans(a: Self, b: Self, c: Self) {
        lemma_text_order_laws(a.title@, b.title@, c.title@);
    }
}

/// Orders fetched documents by title; documents with equal titles keep their order.
pub fn sort_documents_by_title<T>(items: &mut Vec<DocumentItem<T>>)
    ensures
        stably_sorted(old(items)@, final(items)@),
{
    stable_sort(items);
}

/// Fetched documents are ordered by title: in any stable sort, titles never
/// decrease.
pub proof fn lemma_document_items_by_title<T>(input: Seq<DocumentItem<T>>, out: Seq<DocumentItem<T>>, i: int, j: int)
    requires
        stably_sorted(input, out),
        0 <= i < j < out.len(),
    ensures
        !crate::text::text_lt(out[j].title@, out[i].title@),
{
    assert(out[i].key_le(out[j]));
    crate::text::lemma_text_order_laws(out[i].title@, out[j].title@, out[j].title@);
}

/// The position of the first document with the given id, if any.
pub fn find_document<T>(items: &Vec<DocumentItem<T>>, id: &str) -> (r: Option<usize>)
    ensures
        match r {
            Some(k) => k < items@.len() && items@[k as int].id@ == id@ && forall|j: int|
                0 <= j < k ==> (#[trigger] items@[j]).id@ != id@,
            None => forall|j: int| 0 <= j < items@.len() ==> (#[trigger] items@[j]).id@ != id@,
        },
{
    let mut i: usize = 0;
    while i < items.len()
        invariant
            i <= items@.len(),
            forall|j: int| 0 <= j < i ==> (#[trigger] items@[j]).id@ != id@,
        decreases items.len() - i,
    {
        if crate::text::same_text(items[i].id.as_str(), id) {
            return Some(i);
        }
        i += 1;
    }
    None
}

/// An attachment of a document.
pub struct DocumentAttachmentRecord {
    pub name: String,
    pub url: String,
}

/// The full content of one document.
pub struct DocumentDetailRecord {
    pub course_title: String,
    pub id: String,
    pub title: String,
    pub descriptions: Vec<String>,
    pub attachments: Vec<DocumentAttachmentRecord>,
}

/// The result of a document download.
pub struct DocumentActionRecord {
    pub action: String,
    pub course_title: String,
    pub id: String,
    pub title: String,
    pub path: String,
}

/// One line of the readable document list.
pub open spec fn document_line(st: Styles, r: DocumentListRecord) -> Seq<char> {
    blue_bold(st, r.course_title@) + seq![' '] + styled(st.dim, seq!['>']) + seq![' '] + blue_bold(
        st,
        r.title@,
    ) + " ("@ + styled(st.green, decimal(r.attachment_count as nat) + " 个附件"@) + ") "@ + styled(
        st.dim,
        r.id@,
    ) + seq!['\n']
}

/// The lines of the first `n` documents.
pub open spec fn document_lines(st: Styles, records: Seq<DocumentListRecord>, n: nat) -> Seq<char>
    decreases n,
{
    if n == 0 || n > records.len() {
        seq![]
    } else {
        document_lines(st, records, (n - 1) as nat) + document_line(st, records[n - 1])
    }
}

/// The readable document list: a banner, a blank line, one line per document.
pub open spec fn document_list_text(st: Styles, records: Seq<DocumentListRecord>) -> Seq<char> {
    banner(st, "课程文档"@) + "\n\n"@ + document_lines(st, records, records.len())
}

fn push_document_line(buf: &mut String, st: &Styles, r: &DocumentListRecord)
    ensures
        final(buf)@ == old(buf)@ + document_line(*st, *r),
{
    let ghost start = buf@;
    push_blue_bold(buf, st, r.course_title.as_str());
    push_char(buf, ' ');
    push_styled(buf, &st.dim, ">");
    push_char(buf, ' ');
    push_blue_bold(buf, st, r.title.as_str());
    proof {
        reveal_strlit(">");
    }
    let ghost a = buf@;
    assert(a =~= start + blue_bold(*st, r.course_title@) + seq![' '] + styled(st.dim, seq!['>'])
        + seq![' '] + blue_bold(*st, r.title@));
    push_str(buf, " (");
    push_str(buf, st.green.on.as_str());
    push_decimal(buf, r.attachment_count);
    push_str(buf, " 个附件");
    push_str(buf, st.green.off.as_str());
    push_str(buf, ") ");
    push_styled(buf, &st.dim, r.id.as_str());
    push_char(buf, '\n');
    assert(buf@ =~= start + document_line(*st, *r));
}

/// Renders the readable document list (see [`document_list_text`]).
pub fn render_document_list(st: &Styles, records: &Vec<DocumentListRecord>) -> (r: String)
    ensures
        r@ == document_list_text(*st, records@),
{
    let mut buf = String::new();
    push_banner(&mut buf, st, "课程文档");
    push_str(&mut buf, "\n\n");
    let ghost head = buf@;
    let mut i: usize = 0;
    while i < records.len()
        invariant
            i <= records.len(),
            buf@ == head + document_lines(*st, records@, i as nat),
        decreases records.len() - i,
    {
        push_document_line(&mut buf, st, &records[i]);
        assert(buf@ =~= head + document_lines(*st, records@, (i + 1) as nat));
        i += 1;
    }
    assert(buf@ =~= document_list_text(*st, records@));
    buf
}

/// Each text followed by a line break.
pub open spec fn text_lines(lines: Seq<String>, n: nat) -> Seq<char>
    decreases n,
{
    if n == 0 || n > lines.len() {
        seq![]
    } else {
        text_lines(lines, (n - 1) as nat) + lines[n - 1]@ + seq!['\n']
    }
}

/// `[附件] name` lines for the first `n` attachments.
pub open spec fn document_attachment_lines(st: Styles, atts: Seq<DocumentAttachmentRecord>, n: nat) -> Seq<char>
    decreases n,
{
    if n == 0 || n > atts.len() {
        seq![]
    } else {
        document_attachment_lines(st, atts, (n - 1) as nat) + styled(st.dim, "[附件]"@) + seq![' ']
            + styled(st.underline, atts[n - 1].name@) + seq!['\n']
    }
}

/// The readable detail of a document: course and title, id, then the
/// description lines and the attachment names, each group after a blank line.
pub open spec fn document_detail_text(st: Styles, d: DocumentDetailRecord) -> Seq<char> {
    blue_bold(st, d.course_title@) + seq![' '] + styled(st.dim, seq!['>']) + seq![' '] + blue_bold(
        st,
        d.title@,
    ) + seq!['\n'] + styled(st.dim, "ID:"@) + seq![' '] + d.id@ + seq!['\n'] + (if d.descriptions@.len() > 0 {
        seq!['\n'] + text_lines(d.descriptions@, d.descriptions@.len())
    } else {
        seq![]
    }) + if d.attachments@.len() > 0 {
        seq!['\n'] + document_attachment_lines(st, d.attachments@, d.attachments@.len())
    } else {
        seq![]
    }
}

/// Renders the readable detail of a document (see [`document_detail_text`]).
pub fn render_document_detail(st: &Styles, d: &DocumentDetailRecord) -> (r: String)
    ensures
        r@ == document_detail_text(*st, *d),
{
    let mut buf = String::new();
    push_blue_bold(&mut buf, st, d.course_title.as_str());
    push_char(&mut buf, ' ');
    push_styled(&mut buf, &st.dim, ">");
    push_char(&mut buf, ' ');
    push_blue_bold(&mut buf, st, d.title.as_str());
    push_char(&mut buf, '\n');
    push_styled(&mut buf, &st.dim, "ID:");
    push_char(&mut buf, ' ');
    push_str(&mut buf, d.id.as_str());
    push_char(&mut buf, '\n');
    proof {
        reveal_strlit(">");
    }
    let ghost head = buf@;
    if d.descriptions.len() > 0 {
        push_char(&mut buf, '\n');
        let ghost list_start = buf@;
        let mut i: usize = 0;
        while i < d.descriptions.len()
            invariant
                i <= d.descriptions.len(),
                buf@ == list_start + text_lines(d.descriptions@, i as nat),
            decreases d.descriptions.len() - i,
        {
            push_str(&mut buf, d.descriptions[i].as_str());
            push_char(&mut buf, '\n');
            assert(buf@ =~= list_start + text_lines(d.descriptions@, (i + 1) as nat));
            i += 1;
        }
    }
    let ghost mid = buf@;
    if d.attachments.len() > 0 {
        push_char(&mut buf, '\n');
        let ghost list_start = buf@;
        let mut i: usize = 0;
        while i < d.attachments.len()
            invariant
                i <= d.attachments.len(),
                buf@ == list_start + document_attachment_lines(*st, d.attachments@, i as nat),
            decreases d.attachments.len() - i,
        {
            push_styled(&mut buf, &st.dim, "[附件]");
            push_char(&mut buf, ' ');
            push_styled(&mut buf, &st.underline, d.attachments[i].name.as_str());
            push_char(&mut buf, '\n');
            assert(buf@ =~= list_start + document_attachment_lines(*st, d.attachments@, (i + 1) as nat));
            i += 1;
        }
    }
    assert(buf@ =~= document_detail_text(*st, *d));
    buf
}

/// The choice offered for one document in the download prompt (`index`
/// counts from 1): `[index] course > title id`.
pub open spec fn document_option(index: nat, course: Seq<char>, title: Seq<char>, id: Seq<char>) -> Seq<char> {
    seq!['['] + decimal(index) + "] "@ + course + " > "@ + title + seq![' '] + id
}

/// The choices of the download prompt, one per document, numbered from 1.
pub fn document_options(records: &Vec<DocumentListRecord>) -> (options: Vec<String>)
    ensures
        options@.len() == records@.len(),
        forall|k: int|
            0 <= k < records@.len() ==> (#[trigger] options@[k])@ == document_option(
                (k + 1) as nat,
                records@[k].course_title@,
                records@[k].title@,
                records@[k].id@,
            ),
{
    let mut options: Vec<String> = Vec::new();
    let mut i: usize = 0;
    while i < records.len()
        invariant
            i <= records.len(),
            options@.len() == i,
            forall|k: int|
                0 <= k < i ==> (#[trigger] options@[k])@ == document_option(
                    (k + 1) as nat,
                    records@[k].course_title@,
                    records@[k].title@,
                    records@[k].id@,
                ),
        decreases records.len() - i,
    {
        let r = &records[i];
        let mut s = String::new();
        push_char(&mut s, '[');
        push_decimal(&mut s, i + 1);
        push_str(&mut s, "] ");
        push_str(&mut s, r.course_title.as_str());
        push_str(&mut s, " > ");
        push_str(&mut s, r.title.as_str());
        push_char(&mut s, ' ');
        push_str(&mut s, r.id.as_str());
        assert(s@ =~= document_option((i + 1) as nat, r.course_title@, r.title@, r.id@));
        options.push(s);
        i += 1;
    }
    options
}

} // verus!
