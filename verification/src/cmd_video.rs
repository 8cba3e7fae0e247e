use vstd::prelude::*;

use crate::content::copy_string;
use crate::sorting::{stable_sort, stably_sorted, SortKey};
use crate::style::{banner, bullet, push_banner, push_bullet, push_styled, styled, Styles};
use crate::text::{compare_text, lemma_text_order_laws, push_char, push_str, text_order, then_order};

verus! {

/// One recorded lecture in the video list.
pub struct VideoListRecord {
    pub course_title: String,
    pub id: String,
    pub title: String,
    pub duration: String,
}

impl SortKey for VideoListRecord {
    open spec fn key_le(self, other: Self) -> bool {
        then_order(
            text_order(self.course_title@, other.course_title@),
            then_order(text_order(self.title@, other.title@), text_order(self.id@, other.id@)),
        ) <= 0
    }

    fn le(&self, other: &Self) -> (r: bool) {
        let c = compare_text(self.course_title.as_str(), other.course_title.as_str());
        if c != 0 {
            return c < 0;
        }
        let c = compare_text(self.title.as_str(), other.title.as_str());
        if c != 0 {
            return c < 0;
        }
        compare_text(self.id.as_str(), other.id.as_str()) <= 0
    }

    proof fn lemma_total(a: Self, b: Self) {
        lemma_text_order_laws(a.course_title@, b.course_title@, b.course_title@);
        lemma_text_order_laws(a.title@, b.title@, b.title@);
        lemma_text_order_laws(a.id@, b.id@, b.id@);
    }

    proof fn lemma_trans(a: Self, b: Self, c: Self) {
        lemma_text_order_laws(a.course_title@, b.course_title@, c.course_title@);
        lemma_text_order_laws(a.title@, b.title@, c.title@);
        lemma_text_order_laws(a.id@, b.id@, c.id@);
    }
}

/// Orders videos by course title, then title, then id.
pub fn sort_video_records(records: &mut Vec<VideoListRecord>)
    ensures
        stably_sorted(old(records)@, final(records)@),
{
    stable_sort(records);
}

/// The video list is ordered by course title, then title, then id: in any
/// stable sort, each later field only orders videos that agree on all
/// earlier ones.
pub proof fn lemma_video_order(input: Seq<VideoListRecord>, out: Seq<VideoListRecord>, i: int, j: int)
    requires
        stably_sorted(input, out),
        0 <= i < j < out.len(),
    ensures
        ({
            let (x, y) = (out[i], out[j]);
            &&& !crate::text::text_lt(y.course_title@, x.course_title@)
            &&& x.course_title@ == y.course_title@ ==> !crate::text::text_lt(y.title@, x.title@)
            &&& x.course_title@ == y.course_title@ && x.title@ == y.title@ ==> !crate::text::text_lt(y.id@, x.id@)
        }),
{
    let (x, y) = (out[i], out[j]);
    assert(x.key_le(y));
    crate::text::lemma_text_order_laws(x.course_title@, y.course_title@, y.course_title@);
    crate::text::lemma_text_order_laws(x.title@, y.title@, y.title@);
    crate::text::lemma_text_order_laws(x.id@, y.id@, y.id@);
}


/// What the commands read of one recorded lecture.
pub struct VideoSummary {
    pub id: String,
    pub title: String,
    /// The recording time as displayed.
    pub time: String,
}

/// The recorded lectures of one course, in the order the course lists them.
pub struct CourseVideos {
    pub course_title: String,
    pub videos: Vec<VideoSummary>,
}

/// The lectures of one course, each paired with the course title.
pub open spec fn course_video_pairs(c: CourseVideos) -> Seq<(Seq<char>, VideoSummary)> {
    c.videos@.map_values(|v: VideoSummary| (c.course_title@, v))
}

/// The lectures of the first `n` courses, course by course.
pub open spec fn all_video_pairs(courses: Seq<CourseVideos>, n: nat) -> Seq<(Seq<char>, VideoSummary)>
    decreases n,
{
    if n == 0 || n > courses.len() {
        seq![]
    } else {
        all_video_pairs(courses, (n - 1) as nat) + course_video_pairs(courses[n - 1])
    }
}

/// `r` is the list record of the lecture `p` (course title and lecture).
pub open spec fn video_record_of(r: VideoListRecord, p: (Seq<char>, VideoSummary)) -> bool {
    &&& r.course_title@ == p.0
    &&& r.id@ == p.1.id@
    &&& r.title@ == p.1.title@
    &&& r.duration@ == p.1.time@
}

/// `records` lists the lectures `pairs` one for one, in the same order.
pub open spec fn describes_videos(records: Seq<VideoListRecord>, pairs: Seq<(Seq<char>, VideoSummary)>) -> bool {
    &&& records.len() == pairs.len()
    &&& forall|k: int| 0 <= k < records.len() ==> video_record_of(#[trigger] records[k], pairs[k])
}

/// The records of every lecture of every course, ordered by course title,
/// title and id.
pub fn video_list_records(courses: &Vec<CourseVideos>) -> (out: Vec<VideoListRecord>)
    ensures
        exists|flat: Seq<VideoListRecord>|
            describes_videos(flat, all_video_pairs(courses@, courses@.len())) && stably_sorted(
                flat,
                out@,
            ),
{
    let mut items: Vec<VideoListRecord> = Vec::new();
    let mut i: usize = 0;
    while i < courses.len()
        invariant
            i <= courses.len(),
            describes_videos(items@, all_video_pairs(courses@, i as nat)),
        decreases courses.len() - i,
    {
        let c = &courses[i];
        let ghost base = items@;
        let ghost pairs = all_video_pairs(courses@, i as nat);
        let mut j: usize = 0;
        while j < c.videos.len()
            invariant
                j <= c.videos.len(),
                c == courses@[i as int],
                base.len() == pairs.len(),
                items@.len() == base.len() + j,
                forall|k: int| 0 <= k < base.len() ==> #[trigger] items@[k] == base[k],
                describes_videos(base, pairs),
                forall|k: int|
                    0 <= k < j ==> video_record_of(
                        #[trigger] items@[base.len() + k],
                        course_video_pairs(*c)[k],
                    ),
            decreases c.videos.len() - j,
        {
            let v = &c.videos[j];
            let ghost prev = items@;
            items.push(
                VideoListRecord {
                    course_title: copy_string(&c.course_title),
                    id: copy_string(&v.id),
                    title: copy_string(&v.title),
                    duration: copy_string(&v.time),
                },
            );
            proof {
                assert forall|k: int|
                    0 <= k < j + 1 implies video_record_of(
                    #[trigger] items@[base.len() + k],
                    course_video_pairs(*c)[k],
                ) by {
                    if k < j {
                        assert(items@[base.len() + k] == prev[base.len() + k]);
                    }
                }
            }
            j += 1;
        }
        proof {
            let next = all_video_pairs(courses@, (i + 1) as nat);
            assert(next == pairs + course_video_pairs(*c));
            assert forall|k: int| 0 <= k < items@.len() implies video_record_of(
                #[trigger] items@[k],
                next[k],
            ) by {
                if k < base.len() {
                    assert(items@[k] == base[k]);
                } else {
                    assert(items@[base.len() + (k - base.len())] == items@[k]);
                }
            }
        }
        i += 1;
    }
    let ghost flat = items@;
    sort_video_records(&mut items);
    assert(describes_videos(flat, all_video_pairs(courses@, courses@.len())) && stably_sorted(
        flat,
        items@,
    ));
    items
}

/// One lecture line of the readable video list: `• title (time) id`.
pub open spec fn video_line(st: Styles, v: VideoSummary) -> Seq<char> {
    bullet(st) + v.title@ + seq![' ', '('] + v.time@ + seq![')', ' '] + styled(st.dim, v.id@)
        + seq!['\n']
}

/// The lecture lines of the first `n` lectures.
pub open spec fn video_lines(st: Styles, videos: Seq<VideoSummary>, n: nat) -> Seq<char>
    decreases n,
{
    if n == 0 || n > videos.len() {
        seq![]
    } else {
        video_lines(st, videos, (n - 1) as nat) + video_line(st, videos[n - 1])
    }
}

/// The block of one course: nothing when it has no lectures, else its title
/// in brackets as a heading, a blank line, its lectures and a blank line.
pub open spec fn video_block(st: Styles, c: CourseVideos) -> Seq<char> {
    if c.videos@.len() == 0 {
        seq![]
    } else {
        st.blue.on@ + styled(st.h1, seq!['['] + c.course_title@ + seq![']']) + st.blue.off@
            + seq!['\n', '\n'] + video_lines(st, c.videos@, c.videos@.len()) + seq!['\n']
    }
}

/// The blocks of the first `n` courses.
pub open spec fn video_blocks(st: Styles, courses: Seq<CourseVideos>, n: nat) -> Seq<char>
    decreases n,
{
    if n == 0 || n > courses.len() {
        seq![]
    } else {
        video_blocks(st, courses, (n - 1) as nat) + video_block(st, courses[n - 1])
    }
}

/// The readable video list: a banner, a blank line, then a block per course
/// that has lectures.
pub open spec fn video_list_text(st: Styles, courses: Seq<CourseVideos>) -> Seq<char> {
    banner(st, "课程回放"@) + seq!['\n', '\n'] + video_blocks(st, courses, courses.len())
}

fn push_video_line(buf: &mut String, st: &Styles, v: &VideoSummary)
    ensures
        final(buf)@ == old(buf)@ + video_line(*st, *v),
{
    let ghost start = buf@;
    push_bullet(buf, st);
    push_str(buf, v.title.as_str());
    push_char(buf, ' ');
    push_char(buf, '(');
    push_str(buf, v.time.as_str());
    push_char(buf, ')');
    push_char(buf, ' ');
    push_styled(buf, &st.dim, v.id.as_str());
    push_char(buf, '\n');
    assert(buf@ =~= start + video_line(*st, *v));
}

fn push_video_block(buf: &mut String, st: &Styles, c: &CourseVideos)
    ensures
        final(buf)@ == old(buf)@ + video_block(*st, *c),
{
    if c.videos.len() == 0 {
        assert(old(buf)@ + video_block(*st, *c) =~= old(buf)@);
        return;
    }
    let ghost start = buf@;
    push_str(buf, st.blue.on.as_str());
    push_str(buf, st.h1.on.as_str());
    push_char(buf, '[');
    push_str(buf, c.course_title.as_str());
    push_char(buf, ']');
    push_str(buf, st.h1.off.as_str());
    push_str(buf, st.blue.off.as_str());
    push_char(buf, '\n');
    push_char(buf, '\n');
    let ghost head = buf@;
    let mut j: usize = 0;
    while j < c.videos.len()
        invariant
            j <= c.videos.len(),
            buf@ == head + video_lines(*st, c.videos@, j as nat),
        decreases c.videos.len() - j,
    {
        push_video_line(buf, st, &c.videos[j]);
        assert(buf@ =~= head + video_lines(*st, c.videos@, (j + 1) as nat));
        j += 1;
    }
    push_char(buf, '\n');
    assert(buf@ =~= start + video_block(*st, *c));
}

/// Renders the readable video list (see [`video_list_text`]).
pub fn render_video_list(st: &Styles, courses: &Vec<CourseVideos>) -> (r: String)
    ensures
        r@ == video_list_text(*st, courses@),
{
    let mut buf = String::new();
    push_banner(&mut buf, st, "课程回放");
    push_char(&mut buf, '\n');
    push_char(&mut buf, '\n');
    let ghost head = buf@;
    let mut i: usize = 0;
    while i < courses.len()
        invariant
            i <= courses.len(),
            buf@ == head + video_blocks(*st, courses@, i as nat),
        decreases courses.len() - i,
    {
        push_video_block(&mut buf, st, &courses[i]);
        assert(buf@ =~= head + video_blocks(*st, courses@, (i + 1) as nat));
        i += 1;
    }
    assert(buf@ =~= video_list_text(*st, courses@));
    buf
}

/// `(i, j)` comes before `(k, l)`: an earlier course, or the same course and
/// an earlier lecture.
pub open spec fn video_before(i: int, j: int, k: int, l: int) -> bool {
    i < k || (i == k && j < l)
}

/// The first lecture with the given id, as (course position, lecture
/// position), searching course by course in order.
pub fn find_video(courses: &Vec<CourseVideos>, id: &str) -> (r: Option<(usize, usize)>)
    ensures
        match r {
            Some((i, j)) => {
                &&& i < courses@.len()
                &&& j < courses@[i as int].videos@.len()
                &&& courses@[i as int].videos@[j as int].id@ == id@
                &&& forall|k: int, l: int|
                    0 <= k < courses@.len() && 0 <= l < courses@[k].videos@.len() && video_before(
                        k,
                        l,
                        i as int,
                        j as int,
                    ) ==> (#[trigger] courses@[k].videos@[l]).id@ != id@
            },
            None => forall|k: int, l: int|
                0 <= k < courses@.len() && 0 <= l < courses@[k].videos@.len()
                    ==> (#[trigger] courses@[k].videos@[l]).id@ != id@,
        },
{
    let mut i: usize = 0;
    while i < courses.len()
        invariant
            i <= courses@.len(),
            forall|k: int, l: int|
                0 <= k < i && 0 <= l < courses@[k].videos@.len()
                    ==> (#[trigger] courses@[k].videos@[l]).id@ != id@,
        decreases courses.len() - i,
    {
        let vs = &courses[i].videos;
        let mut j: usize = 0;
        while j < vs.len()
            invariant
                i < courses@.len(),
                *vs == courses@[i as int].videos,
                j <= vs@.len(),
                forall|k: int, l: int|
                    0 <= k < i && 0 <= l < courses@[k].videos@.len()
                        ==> (#[trigger] courses@[k].videos@[l]).id@ != id@,
                forall|l: int| 0 <= l < j ==> (#[trigger] vs@[l]).id@ != id@,
            decreases vs.len() - j,
        {
            if crate::text::same_text(vs[j].id.as_str(), id) {
                return Some((i, j));
            }
            j += 1;
        }
        i += 1;
    }
    None
}

/// The file name of a downloaded video: `course_title.mp4`.
pub open spec fn video_file_name_of(course: Seq<char>, title: Seq<char>) -> Seq<char> {
    course + seq!['_'] + title + ".mp4"@
}

/// The file name a downloaded video is saved under.
pub fn video_file_name(course: &str, title: &str) -> (r: String)
    ensures
        r@ == video_file_name_of(course@, title@),
{
    let mut r = String::new();
    push_str(&mut r, course);
    push_char(&mut r, '_');
    push_str(&mut r, title);
    push_str(&mut r, ".mp4");
    r
}

/// The line announcing a download: `下载课程回放：course (title)`.
pub open spec fn download_start_text(course: Seq<char>, title: Seq<char>) -> Seq<char> {
    "下载课程回放："@ + course + seq![' ', '('] + title + seq![')', '\n']
}

/// Renders the line announcing a download (see [`download_start_text`]).
pub fn render_download_start(course: &str, title: &str) -> (r: String)
    ensures
        r@ == download_start_text(course@, title@),
{
    let mut r = String::new();
    push_str(&mut r, "下载课程回放：");
    push_str(&mut r, course);
    push_char(&mut r, ' ');
    push_char(&mut r, '(');
    push_str(&mut r, title);
    push_char(&mut r, ')');
    push_char(&mut r, '\n');
    r
}

/// The line reporting a finished download and the saved file.
pub open spec fn download_done_text(st: Styles, path: Seq<char>) -> Seq<char> {
    "下载完成, 文件保存为: "@ + st.green.on@ + styled(st.h2, path) + st.green.off@ + seq!['\n']
}

/// Renders the line reporting a finished download (see [`download_done_text`]).
pub fn render_download_done(st: &Styles, path: &str) -> (r: String)
    ensures
        r@ == download_done_text(*st, path@),
{
    let mut r = String::new();
    push_str(&mut r, "下载完成, 文件保存为: ");
    push_str(&mut r, st.green.on.as_str());
    push_styled(&mut r, &st.h2, path);
    push_str(&mut r, st.green.off.as_str());
    push_char(&mut r, '\n');
    assert(r@ =~= download_done_text(*st, path@));
    r
}

/// The value given last for position `k` among indexed results.
pub open spec fn last_for<T>(results: Seq<(usize, T)>, k: int) -> Option<T>
    decreases results.len(),
{
    if results.len() == 0 {
        None
    } else if results.last().0 == k {
        Some(results.last().1)
    } else {
        last_for(results.drop_last(), k)
    }
}

/// Puts the downloaded segments, which arrive in any order tagged with their
/// position, back in order: `None` when a position has no segment.
#[verifier::loop_isolation(false)]
pub fn segments_in_order<T>(count: usize, results: Vec<(usize, T)>) -> (r: Option<Vec<T>>)
    requires
        forall|i: int| 0 <= i < results@.len() ==> (#[trigger] results@[i]).0 < count,
    ensures
        match r {
            Some(v) => v@.len() == count && forall|k: int|
                0 <= k < count ==> last_for(results@, k) == Some(#[trigger] v@[k]),
            None => exists|k: int| 0 <= k < count && (#[trigger] last_for(results@, k)) is None,
        },
{
    let ghost orig = results@;
    let mut results = results;
    let mut slots: Vec<Option<T>> = Vec::new();
    while slots.len() < count
        invariant
            slots@.len() <= count,
            forall|k: int| 0 <= k < slots@.len() ==> (#[trigger] slots@[k]) is None,
        decreases count - slots.len(),
    {
        slots.push(None);
    }
    proof {
        assert(results@ =~= orig.take(orig.len() as int));
    }
    while results.len() > 0
        invariant
            slots@.len() == count,
            results@ == orig.take(results@.len() as int),
            results@.len() <= orig.len(),
            forall|i: int| 0 <= i < orig.len() ==> (#[trigger] orig[i]).0 < count,
            forall|k: int|
                0 <= k < count ==> match #[trigger] slots@[k] {
                    Some(x) => last_for(orig, k) == Some(x),
                    None => last_for(orig, k) == last_for(results@, k),
                },
        decreases results.len(),
    {
        let ghost before = results@;
        let (j, p) = results.pop().unwrap();
        proof {
            assert(before.drop_last() =~= results@);
            assert(results@ =~= orig.take(results@.len() as int));
            assert(before.last() == orig[results@.len() as int]);
        }
        if slots[j].is_none() {
            slots.set(j, Some(p));
        }
    }
    let mut out: Vec<T> = Vec::new();
    while slots.len() > 0
        invariant
            slots@.len() + out@.len() == count,
            forall|k: int|
                0 <= k < slots@.len() ==> match #[trigger] slots@[k] {
                    Some(x) => last_for(orig, k) == Some(x),
                    None => last_for(orig, k) is None,
                },
            forall|m: int|
                0 <= m < out@.len() ==> last_for(orig, slots@.len() + m) == Some(#[trigger] out@[m]),
        decreases slots.len(),
    {
        let ghost n = slots@.len() - 1;
        let ghost before = out@;
        match slots.pop().unwrap() {
            Some(x) => {
                out.insert(0, x);
                proof {
                    assert forall|m: int| 0 <= m < out@.len() implies last_for(
                        orig,
                        slots@.len() + m,
                    ) == Some(#[trigger] out@[m]) by {
                        if m > 0 {
                            assert(out@[m] == before[m - 1]);
                        }
                    }
                }
            },
            None => {
                proof {
                    assert(last_for(orig, n) is None);
                }
                return None;
            },
        }
    }
    Some(out)
}

/// The `video` command.
pub struct CommandVideo {
    pub force: bool,
    pub command: VideoCommands,
    /// Markdown output.
    pub json: bool,
    pub otp_code: String,
}

/// The `video` subcommands.
pub enum VideoCommands {
    List { all_term: bool },
    Download { id: String, all_term: bool, outdir: Option<String> },
}

/// The directory a video is saved to: the given one, or the current directory.
pub fn video_outdir(outdir: Option<String>) -> (r: String)
    ensures
        match outdir {
            Some(d) => r == d,
            None => r@ == seq!['.'],
        },
{
    match outdir {
        Some(d) => d,
        None => {
            let mut s = String::new();
            crate::text::push_char(&mut s, '.');
            s
        },
    }
}

} // verus!
