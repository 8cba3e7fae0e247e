use vstd::prelude::*;

use crate::content::{
    copy_string, kind_passes, lowercase_filter, passes_filter, ContentSummary, CourseContents,
};
use crate::query_match::{match_type_name, title_match_rank, title_match_type};
use crate::sorting::{drop_ranks, stable_sort, stably_sorted, strip_ranks, SortKey};
use crate::style::{banner, push_banner, push_styled, styled, Styles};
use crate::text::{
    chars_of, compare_text, decimal, lemma_text_order_laws, lowercase_of, num_order, push_char,
    push_decimal, push_str, string_from_chars, text_order, then_order,
};

verus! {

/// One content node found by title lookup across courses.
pub struct FindRecord {
    pub course_index: usize,
    pub course_title: String,
    pub id: String,
    pub title: String,
    pub kind: String,
    pub match_type: String,
    pub description_count: usize,
    pub attachment_count: usize,
}

impl SortKey for (u8, FindRecord) {
    open spec fn key_le(self, other: Self) -> bool {
        then_order(
            num_order(self.0 as int, other.0 as int),
            then_order(
                num_order(self.1.course_index as int, other.1.course_index as int),
                then_order(
                    text_order(self.1.kind@, other.1.kind@),
                    then_order(
                        text_order(self.1.title@, other.1.title@),
                        text_order(self.1.id@, other.1.id@),
                    ),
                ),
            ),
        ) <= 0
    }

    fn le(&self, other: &Self) -> (r: bool) {
        if self.0 != other.0 {
            return self.0 < other.0;
        }
        if self.1.course_index != other.1.course_index {
            return self.1.course_index < other.1.course_index;
        }
        let c = compare_text(self.1.kind.as_str(), other.1.kind.as_str());
        if c != 0 {
            return c < 0;
        }
        let c = compare_text(self.1.title.as_str(), other.1.title.as_str());
        if c != 0 {
            return c < 0;
        }
        compare_text(self.1.id.as_str(), other.1.id.as_str()) <= 0
    }

    proof fn lemma_total(a: Self, b: Self) {
        lemma_text_order_laws(a.1.kind@, b.1.kind@, b.1.kind@);
        lemma_text_order_laws(a.1.title@, b.1.title@, b.1.title@);
        lemma_text_order_laws(a.1.id@, b.1.id@, b.1.id@);
    }

    proof fn lemma_trans(a: Self, b: Self, c: Self) {
        lemma_text_order_laws(a.1.kind@, b.1.kind@, c.1.kind@);
        lemma_text_order_laws(a.1.title@, b.1.title@, c.1.title@);
        lemma_text_order_laws(a.1.id@, b.1.id@, c.1.id@);
    }
}

/// Orders ranked find results: best rank first, then course index, kind,
/// title and id.
pub fn sort_find_records(records: &mut Vec<(u8, FindRecord)>)
    ensures
        stably_sorted(old(records)@, final(records)@),
{
    stable_sort(records);
}

/// Lookup results are ordered best rank first, then by course index, kind,
/// title and id: in any stable sort, each later field only orders results
/// that agree on all earlier ones.
pub proof fn lemma_find_order(input: Seq<(u8, FindRecord)>, out: Seq<(u8, FindRecord)>, i: int, j: int)
    requires
        stably_sorted(input, out),
        0 <= i < j < out.len(),
    ensures
        ({
            let (x, y) = (out[i], out[j]);
            &&& x.0 <= y.0
            &&& x.0 == y.0 ==> x.1.course_index <= y.1.course_index
            &&& x.0 == y.0 && x.1.course_index == y.1.course_index ==> !crate::text::text_lt(y.1.kind@, x.1.kind@)
            &&& x.0 == y.0 && x.1.course_index == y.1.course_index && x.1.kind@ == y.1.kind@
                ==> !crate::text::text_lt(y.1.title@, x.1.title@)
            &&& x.0 == y.0 && x.1.course_index == y.1.course_index && x.1.kind@ == y.1.kind@
                && x.1.title@ == y.1.title@ ==> !crate::text::text_lt(y.1.id@, x.1.id@)
        }),
{
    let (x, y) = (out[i], out[j]);
    assert(x.key_le(y));
    crate::text::lemma_text_order_laws(x.1.kind@, y.1.kind@, y.1.kind@);
    crate::text::lemma_text_order_laws(x.1.title@, y.1.title@, y.1.title@);
    crate::text::lemma_text_order_laws(x.1.id@, y.1.id@, y.1.id@);
}

/// `r` describes node `c` of course `course`, matched with rank `rank`.
pub open spec fn find_record_for(r: FindRecord, course: CourseContents, c: ContentSummary, rank: u8) -> bool {
    &&& r.course_index == course.course_index
    &&& r.course_title@ == course.course_title@
    &&& r.id@ == c.id@
    &&& r.title@ == c.title@
    &&& r.kind@ == c.kind@
    &&& r.match_type@ == match_type_name(rank)
    &&& r.description_count == c.descriptions@.len()
    &&& r.attachment_count == c.attachment_count
}

/// Positions and ranks of the nodes among the first `m` of a course that pass
/// the kind filter and match the query by title.
pub open spec fn course_hits(
    course: CourseContents,
    query: Seq<char>,
    kind: Option<Seq<char>>,
    m: nat,
) -> Seq<(int, u8)>
    decreases m,
{
    if m == 0 || m > course.contents@.len() {
        seq![]
    } else {
        let c = course.contents@[m - 1];
        course_hits(course, query, kind, (m - 1) as nat) + if kind_passes(c, kind)
            && title_match_rank(c.title@, c.id@, query) is Some {
            seq![(m - 1, title_match_rank(c.title@, c.id@, query)->0)]
        } else {
            seq![]
        }
    }
}

/// A course passes the optional course-index filter.
pub open spec fn course_passes(course: CourseContents, filter: Option<usize>) -> bool {
    match filter {
        Some(f) => f == course.course_index,
        None => true,
    }
}

/// The hits of all courses among the first `n`, as (course position, node
/// position, rank), in course order and then node order.
pub open spec fn find_hits(
    courses: Seq<CourseContents>,
    query: Seq<char>,
    kind: Option<Seq<char>>,
    filter: Option<usize>,
    n: nat,
) -> Seq<(int, int, u8)>
    decreases n,
{
    if n == 0 || n > courses.len() {
        seq![]
    } else {
        let course = courses[n - 1];
        let hs = course_hits(course, query, kind, course.contents@.len());
        find_hits(courses, query, kind, filter, (n - 1) as nat) + if course_passes(course, filter) {
            Seq::new(hs.len(), |k: int| (n - 1, hs[k].0, hs[k].1))
        } else {
            seq![]
        }
    }
}

/// `scored` lists the hits of `hits` for `course` in order.
pub open spec fn describes_course(
    scored: Seq<(u8, FindRecord)>,
    course: CourseContents,
    hits: Seq<(int, u8)>,
) -> bool {
    &&& scored.len() == hits.len()
    &&& forall|k: int|
        0 <= k < scored.len() ==> {
            &&& 0 <= (#[trigger] hits[k]).0 < course.contents@.len()
            &&& scored[k].0 == hits[k].1
            &&& find_record_for(scored[k].1, course, course.contents@[hits[k].0], hits[k].1)
        }
}

/// `scored` lists the hits across courses in order.
pub open spec fn describes_hits(
    scored: Seq<(u8, FindRecord)>,
    courses: Seq<CourseContents>,
    hits: Seq<(int, int, u8)>,
) -> bool {
    &&& scored.len() == hits.len()
    &&& forall|k: int|
        0 <= k < scored.len() ==> {
            &&& 0 <= (#[trigger] hits[k]).0 < courses.len()
            &&& 0 <= hits[k].1 < courses[hits[k].0].contents@.len()
            &&& scored[k].0 == hits[k].2
            &&& find_record_for(
                scored[k].1,
                courses[hits[k].0],
                courses[hits[k].0].contents@[hits[k].1],
                hits[k].2,
            )
        }
}

proof fn lemma_course_hits_contain(
    course: CourseContents,
    query: Seq<char>,
    kind: Option<Seq<char>>,
    m: nat,
    target: int,
)
    requires
        0 <= target < m <= course.contents@.len(),
        kind_passes(course.contents@[target], kind),
        title_match_rank(course.contents@[target].title@, course.contents@[target].id@, query) is Some,
    ensures
        exists|k: int|
            0 <= k < course_hits(course, query, kind, m).len() && #[trigger] course_hits(
                course,
                query,
                kind,
                m,
            )[k] == (
                target,
                title_match_rank(
                    course.contents@[target].title@,
                    course.contents@[target].id@,
                    query,
                )->0,
            ),
    decreases m,
{
    let prev = course_hits(course, query, kind, (m - 1) as nat);
    let all = course_hits(course, query, kind, m);
    if target == m - 1 {
        assert(all[prev.len() as int] == all[all.len() - 1]);
    } else {
        lemma_course_hits_contain(course, query, kind, (m - 1) as nat, target);
        let k = choose|k: int|
            0 <= k < prev.len() && #[trigger] prev[k] == (
                target,
                title_match_rank(
                    course.contents@[target].title@,
                    course.contents@[target].id@,
                    query,
                )->0,
            );
        assert(all[k] == prev[k]);
    }
}

proof fn lemma_course_hits_sound(
    course: CourseContents,
    query: Seq<char>,
    kind: Option<Seq<char>>,
    m: nat,
    h: int,
)
    requires
        m <= course.contents@.len(),
        0 <= h < course_hits(course, query, kind, m).len(),
    ensures
        ({
            let e = course_hits(course, query, kind, m)[h];
            let c = course.contents@[e.0];
            &&& 0 <= e.0 < m
            &&& kind_passes(c, kind)
            &&& title_match_rank(c.title@, c.id@, query) == Some(e.1)
        }),
    decreases m,
{
    let prev = course_hits(course, query, kind, (m - 1) as nat);
    if h < prev.len() {
        lemma_course_hits_sound(course, query, kind, (m - 1) as nat, h);
    }
}

proof fn lemma_find_hits_contain(
    courses: Seq<CourseContents>,
    query: Seq<char>,
    kind: Option<Seq<char>>,
    filter: Option<usize>,
    n: nat,
    p: int,
    m: int,
)
    requires
        0 <= p < n <= courses.len(),
        0 <= m < courses[p].contents@.len(),
        course_passes(courses[p], filter),
        kind_passes(courses[p].contents@[m], kind),
        title_match_rank(courses[p].contents@[m].title@, courses[p].contents@[m].id@, query) is Some,
    ensures
        exists|k: int|
            0 <= k < find_hits(courses, query, kind, filter, n).len() && #[trigger] find_hits(
                courses,
                query,
                kind,
                filter,
                n,
            )[k] == (
                p,
                m,
                title_match_rank(
                    courses[p].contents@[m].title@,
                    courses[p].contents@[m].id@,
                    query,
                )->0,
            ),
    decreases n,
{
    let rank = title_match_rank(courses[p].contents@[m].title@, courses[p].contents@[m].id@, query)->0;
    let prev = find_hits(courses, query, kind, filter, (n - 1) as nat);
    let all = find_hits(courses, query, kind, filter, n);
    if p == n - 1 {
        let course = courses[p];
        let hs = course_hits(course, query, kind, course.contents@.len());
        lemma_course_hits_contain(course, query, kind, course.contents@.len(), m);
        let k = choose|k: int| 0 <= k < hs.len() && #[trigger] hs[k] == (m, rank);
        assert(all[prev.len() + k] == (p, m, rank));
    } else {
        lemma_find_hits_contain(courses, query, kind, filter, (n - 1) as nat, p, m);
        let k = choose|k: int| 0 <= k < prev.len() && #[trigger] prev[k] == (p, m, rank);
        assert(all[k] == prev[k]);
    }
}

proof fn lemma_find_hits_sound(
    courses: Seq<CourseContents>,
    query: Seq<char>,
    kind: Option<Seq<char>>,
    filter: Option<usize>,
    n: nat,
    h: int,
)
    requires
        n <= courses.len(),
        0 <= h < find_hits(courses, query, kind, filter, n).len(),
    ensures
        ({
            let e = find_hits(courses, query, kind, filter, n)[h];
            &&& 0 <= e.0 < n
            &&& 0 <= e.1 < courses[e.0].contents@.len()
            &&& course_passes(courses[e.0], filter)
            &&& kind_passes(courses[e.0].contents@[e.1], kind)
            &&& title_match_rank(
                courses[e.0].contents@[e.1].title@,
                courses[e.0].contents@[e.1].id@,
                query,
            ) == Some(e.2)
        }),
    decreases n,
{
    let prev = find_hits(courses, query, kind, filter, (n - 1) as nat);
    if h < prev.len() {
        lemma_find_hits_sound(courses, query, kind, filter, (n - 1) as nat, h);
    } else {
        let course = courses[n - 1];
        let hs = course_hits(course, query, kind, course.contents@.len());
        lemma_course_hits_sound(course, query, kind, course.contents@.len(), h - prev.len());
    }
}

/// The lookup results as `collect_find_matches` returns them.
pub open spec fn find_result(
    courses: Seq<CourseContents>,
    query: Seq<char>,
    kind: Option<Seq<char>>,
    filter: Option<usize>,
    out: Seq<FindRecord>,
) -> bool {
    exists|scored: Seq<(u8, FindRecord)>, sorted: Seq<(u8, FindRecord)>|
        describes_hits(scored, courses, find_hits(courses, query, kind, filter, courses.len()))
            && stably_sorted(scored, sorted) && out == strip_ranks(sorted)
}

/// Lookup misses nothing: a node of the kind asked for (compared with the
/// lower-cased kind), in a course the index filter lets through, whose title
/// or id matches the query is among the results, with its course, id and
/// match name.
pub proof fn lemma_find_complete(
    courses: Seq<CourseContents>,
    query: Seq<char>,
    kind: Option<Seq<char>>,
    filter: Option<usize>,
    out: Seq<FindRecord>,
    p: int,
    m: int,
)
    requires
        find_result(courses, query, kind, filter, out),
        0 <= p < courses.len(),
        0 <= m < courses[p].contents@.len(),
        filter is None || filter->0 == courses[p].course_index,
        kind is None || courses[p].contents@[m].kind@ == lowercase_of(kind->0),
        title_match_rank(courses[p].contents@[m].title@, courses[p].contents@[m].id@, query) is Some,
    ensures
        exists|k: int|
            0 <= k < out.len() && (#[trigger] out[k]).course_index == courses[p].course_index
                && out[k].id@ == courses[p].contents@[m].id@ && out[k].match_type@ == match_type_name(
                title_match_rank(
                    courses[p].contents@[m].title@,
                    courses[p].contents@[m].id@,
                    query,
                )->0,
            ),
{
    let c = courses[p].contents@[m];
    let rank = title_match_rank(c.title@, c.id@, query)->0;
    let hits = find_hits(courses, query, kind, filter, courses.len());
    let (scored, sorted) = choose|scored: Seq<(u8, FindRecord)>, sorted: Seq<(u8, FindRecord)>|
        describes_hits(scored, courses, hits) && stably_sorted(scored, sorted) && out
            == strip_ranks(sorted);
    lemma_find_hits_contain(courses, query, kind, filter, courses.len(), p, m);
    let h = choose|h: int| 0 <= h < hits.len() && #[trigger] hits[h] == (p, m, rank);
    let e = scored[h];
    assert(hits[h] == (p, m, rank));
    assert(find_record_for(e.1, courses[p], c, rank));
    scored.to_multiset_ensures();
    sorted.to_multiset_ensures();
    assert(scored.contains(e));
    assert(scored.to_multiset().count(e) > 0);
    assert(sorted.to_multiset().count(e) > 0);
    assert(sorted.contains(e));
    let k = choose|k: int| 0 <= k < sorted.len() && sorted[k] == e;
    assert(out[k] == e.1);
}

/// Lookup finds nothing else: every result is a node of the kind asked for,
/// in a course the index filter lets through, whose title or id matches the
/// query under the reported match name.
pub proof fn lemma_find_sound(
    courses: Seq<CourseContents>,
    query: Seq<char>,
    kind: Option<Seq<char>>,
    filter: Option<usize>,
    out: Seq<FindRecord>,
    k: int,
)
    requires
        find_result(courses, query, kind, filter, out),
        0 <= k < out.len(),
    ensures
        exists|p: int, m: int|
            0 <= p < courses.len() && 0 <= m < courses[p].contents@.len() && {
                let c = #[trigger] courses[p].contents@[m];
                &&& out[k].course_index == courses[p].course_index
                &&& out[k].id@ == c.id@
                &&& filter is None || filter->0 == courses[p].course_index
                &&& kind is None || c.kind@ == lowercase_of(kind->0)
                &&& title_match_rank(c.title@, c.id@, query) matches Some(r)
                    && out[k].match_type@ == match_type_name(r)
            },
{
    let hits = find_hits(courses, query, kind, filter, courses.len());
    let (scored, sorted) = choose|scored: Seq<(u8, FindRecord)>, sorted: Seq<(u8, FindRecord)>|
        describes_hits(scored, courses, hits) && stably_sorted(scored, sorted) && out
            == strip_ranks(sorted);
    let e = sorted[k];
    assert(out[k] == e.1);
    scored.to_multiset_ensures();
    sorted.to_multiset_ensures();
    assert(sorted.contains(e));
    assert(sorted.to_multiset().count(e) > 0);
    assert(scored.to_multiset().count(e) > 0);
    assert(scored.contains(e));
    let h = choose|h: int| 0 <= h < scored.len() && scored[h] == e;
    lemma_find_hits_sound(courses, query, kind, filter, courses.len(), h);
    let (p, m, r) = hits[h];
    let c = courses[p].contents@[m];
    assert(find_record_for(e.1, courses[p], c, r));
}

/// Appends the ranked records of the nodes of `course` that pass the kind
/// filter and match `query`, in node order.
pub fn find_in_course(
    course: &CourseContents,
    query: &str,
    kind: Option<&str>,
    kind_lc: &Option<Vec<char>>,
    scored: &mut Vec<(u8, FindRecord)>,
)
    requires
        match kind {
            Some(k) => kind_lc matches Some(v) && v@ == lowercase_of(k@),
            None => kind_lc is None,
        },
    ensures
        final(scored)@.len() >= old(scored)@.len(),
        final(scored)@.subrange(0, old(scored)@.len() as int) == old(scored)@,
        describes_course(
            final(scored)@.subrange(old(scored)@.len() as int, final(scored)@.len() as int),
            *course,
            course_hits(*course, query@, opt_str(kind), course.contents@.len()),
        ),
{
    let ghost start = scored@;
    let ghost kv = opt_str(kind);
    let mut i: usize = 0;
    while i < course.contents.len()
        invariant
            i <= course.contents.len(),
            match kind {
                Some(k) => kind_lc matches Some(v) && v@ == lowercase_of(k@),
                None => kind_lc is None,
            },
            kv == opt_str(kind),
            scored@.len() >= start.len(),
            scored@.subrange(0, start.len() as int) == start,
            describes_course(
                scored@.subrange(start.len() as int, scored@.len() as int),
                *course,
                course_hits(*course, query@, kv, i as nat),
            ),
        decreases course.contents.len() - i,
    {
        let c = &course.contents[i];
        let ghost prev_hits = course_hits(*course, query@, kv, i as nat);
        let ghost next_hits = course_hits(*course, query@, kv, (i + 1) as nat);
        let ghost old_scored = scored@;
        let pass = passes_filter(c, kind_lc);
        if pass {
            match title_match_type(c.title.as_str(), c.id.as_str(), query) {
                Some((name, rank)) => {
                    let r = FindRecord {
                        course_index: course.course_index,
                        course_title: copy_string(&course.course_title),
                        id: copy_string(&c.id),
                        title: copy_string(&c.title),
                        kind: copy_string(&c.kind),
                        match_type: string_from_chars(&chars_of(name)),
                        description_count: c.descriptions.len(),
                        attachment_count: c.attachment_count,
                    };
                    scored.push((rank, r));
                    proof {
                        assert(next_hits == prev_hits + seq![(i as int, rank)]);
                        let seg = scored@.subrange(start.len() as int, scored@.len() as int);
                        let old_seg = old_scored.subrange(start.len() as int, old_scored.len() as int);
                        assert(seg =~= old_seg.push((rank, r)));
                        assert(scored@.subrange(0, start.len() as int) =~= start);
                        assert forall|k: int| 0 <= k < seg.len() implies {
                            &&& 0 <= (#[trigger] next_hits[k]).0 < course.contents@.len()
                            &&& seg[k].0 == next_hits[k].1
                            &&& find_record_for(seg[k].1, *course, course.contents@[next_hits[k].0], next_hits[k].1)
                        } by {
                            if k < old_seg.len() {
                                assert(next_hits[k] == prev_hits[k]);
                                assert(seg[k] == old_seg[k]);
                            }
                        }
                    }
                },
                None => {
                    proof {
                        assert(next_hits =~= prev_hits);
                    }
                },
            }
        } else {
            proof {
                assert(next_hits =~= prev_hits);
            }
        }
        i += 1;
    }
}

/// The view of an optional string slice.
pub open spec fn opt_str(k: Option<&str>) -> Option<Seq<char>> {
    match k {
        Some(s) => Some(s@),
        None => None,
    }
}

/// The ranked records of every node, in the courses passing the index filter,
/// that passes the kind filter and matches `query` by title; in course order
/// and then node order.
pub fn find_scored(
    courses: &Vec<CourseContents>,
    query: &str,
    kind: Option<&str>,
    course_index_filter: Option<usize>,
) -> (scored: Vec<(u8, FindRecord)>)
    ensures
        describes_hits(
            scored@,
            courses@,
            find_hits(courses@, query@, opt_str(kind), course_index_filter, courses@.len()),
        ),
{
    let kind_lc = lowercase_filter(kind);
    let mut scored: Vec<(u8, FindRecord)> = Vec::new();
    let mut n: usize = 0;
    while n < courses.len()
        invariant
            n <= courses.len(),
            match kind {
                Some(k) => kind_lc matches Some(v) && v@ == lowercase_of(k@),
                None => kind_lc is None,
            },
            describes_hits(
                scored@,
                courses@,
                find_hits(courses@, query@, opt_str(kind), course_index_filter, n as nat),
            ),
        decreases courses.len() - n,
    {
        let course = &courses[n];
        let ghost prev = find_hits(courses@, query@, opt_str(kind), course_index_filter, n as nat);
        let ghost next = find_hits(
            courses@,
            query@,
            opt_str(kind),
            course_index_filter,
            (n + 1) as nat,
        );
        let ghost hs = course_hits(*course, query@, opt_str(kind), course.contents@.len());
        let ghost old_scored = scored@;
        let pass = match course_index_filter {
            Some(f) => f == course.course_index,
            None => true,
        };
        if pass {
            find_in_course(course, query, kind, &kind_lc, &mut scored);
            proof {
                let lifted = Seq::new(hs.len(), |k: int| (n as int, hs[k].0, hs[k].1));
                assert(next == prev + lifted);
                let seg = scored@.subrange(old_scored.len() as int, scored@.len() as int);
                assert forall|k: int| 0 <= k < scored@.len() implies {
                    &&& 0 <= (#[trigger] next[k]).0 < courses@.len()
                    &&& 0 <= next[k].1 < courses@[next[k].0].contents@.len()
                    &&& scored@[k].0 == next[k].2
                    &&& find_record_for(
                        scored@[k].1,
                        courses@[next[k].0],
                        courses@[next[k].0].contents@[next[k].1],
                        next[k].2,
                    )
                } by {
                    if k < old_scored.len() {
                        assert(next[k] == prev[k]);
                        assert(scored@[k] == scored@.subrange(0, old_scored.len() as int)[k]);
                    } else {
                        let j = k - old_scored.len();
                        assert(next[k] == lifted[j]);
                        assert(scored@[k] == seg[j]);
                    }
                }
            }
        } else {
            proof {
                assert(next =~= prev);
            }
        }
        n += 1;
    }
    scored
}

/// The title-lookup results across courses, best rank first, then by course
/// index, kind, title and id.
pub fn collect_find_matches(
    courses: &Vec<CourseContents>,
    query: &str,
    kind: Option<&str>,
    course_index_filter: Option<usize>,
) -> (out: Vec<FindRecord>)
    ensures
        exists|scored: Seq<(u8, FindRecord)>, sorted: Seq<(u8, FindRecord)>|
            describes_hits(
                scored,
                courses@,
                find_hits(courses@, query@, opt_str(kind), course_index_filter, courses@.len()),
            ) && stably_sorted(scored, sorted) && out@ == strip_ranks(sorted),
{
    let mut scored = find_scored(courses, query, kind, course_index_filter);
    let ghost unsorted = scored@;
    sort_find_records(&mut scored);
    let ghost sorted = scored@;
    let out = drop_ranks(scored);
    assert(describes_hits(
        unsorted,
        courses@,
        find_hits(courses@, query@, opt_str(kind), course_index_filter, courses@.len()),
    ) && stably_sorted(unsorted, sorted) && out@ == strip_ranks(sorted));
    out
}


/// The course part of a cross-course result line: `[index] title > `.
pub open spec fn course_tag(st: Styles, index: nat, title: Seq<char>) -> Seq<char> {
    styled(st.green, seq!['['] + decimal(index) + seq![']']) + seq![' '] + styled(st.blue, title)
        + seq![' '] + styled(st.dim, seq!['>']) + seq![' ']
}

/// Appends the course part of a cross-course result line.
pub fn push_course_tag(buf: &mut String, st: &Styles, index: usize, title: &str)
    ensures
        final(buf)@ == old(buf)@ + course_tag(*st, index as nat, title@),
{
    let ghost start = buf@;
    push_str(buf, st.green.on.as_str());
    push_char(buf, '[');
    push_decimal(buf, index);
    push_char(buf, ']');
    push_str(buf, st.green.off.as_str());
    push_char(buf, ' ');
    push_styled(buf, &st.blue, title);
    push_char(buf, ' ');
    push_styled(buf, &st.dim, ">");
    push_char(buf, ' ');
    proof {
        reveal_strlit(">");
    }
    assert(buf@ =~= start + course_tag(*st, index as nat, title@));
}

/// One line of the readable lookup result: `[index] course > [kind:match] title id`.
pub open spec fn find_line(st: Styles, r: FindRecord) -> Seq<char> {
    course_tag(st, r.course_index as nat, r.course_title@) + seq!['['] + r.kind@ + seq![':']
        + r.match_type@ + seq![']', ' '] + r.title@ + seq![' '] + styled(st.dim, r.id@) + seq!['\n']
}

/// The lines of the first `n` results.
pub open spec fn find_lines(st: Styles, records: Seq<FindRecord>, n: nat) -> Seq<char>
    decreases n,
{
    if n == 0 || n > records.len() {
        seq![]
    } else {
        find_lines(st, records, (n - 1) as nat) + find_line(st, records[n - 1])
    }
}

/// The readable lookup result: a banner, a blank line, one line per match.
pub open spec fn find_text(st: Styles, records: Seq<FindRecord>) -> Seq<char> {
    banner(st, "查找结果"@) + seq!['\n', '\n'] + find_lines(st, records, records.len())
}

fn push_find_line(buf: &mut String, st: &Styles, r: &FindRecord)
    ensures
        final(buf)@ == old(buf)@ + find_line(*st, *r),
{
    let ghost start = buf@;
    push_course_tag(buf, st, r.course_index, r.course_title.as_str());
    push_char(buf, '[');
    push_str(buf, r.kind.as_str());
    push_char(buf, ':');
    push_str(buf, r.match_type.as_str());
    push_char(buf, ']');
    push_char(buf, ' ');
    push_str(buf, r.title.as_str());
    push_char(buf, ' ');
    push_styled(buf, &st.dim, r.id.as_str());
    push_char(buf, '\n');
    assert(buf@ =~= start + find_line(*st, *r));
}

/// Renders the readable lookup result (see [`find_text`]).
pub fn render_find_matches(st: &Styles, records: &Vec<FindRecord>) -> (r: String)
    ensures
        r@ == find_text(*st, records@),
{
    let mut buf = String::new();
    push_banner(&mut buf, st, "查找结果");
    push_char(&mut buf, '\n');
    push_char(&mut buf, '\n');
    let ghost head = buf@;
    let mut i: usize = 0;
    while i < records.len()
        invariant
            i <= records.len(),
            buf@ == head + find_lines(*st, records@, i as nat),
        decreases records.len() - i,
    {
        push_find_line(&mut buf, st, &records[i]);
        assert(buf@ =~= head + find_lines(*st, records@, (i + 1) as nat));
        i += 1;
    }
    assert(buf@ =~= find_text(*st, records@));
    buf
}

/// The `find` command.
pub struct CommandFind {
    pub force: bool,
    /// A title keyword or a full title.
    pub query: String,
    /// Only this kind of content, such as `assignment` or `document`.
    pub kind: Option<String>,
    /// Only this course.
    pub course_index: Option<usize>,
    pub all_term: bool,
    /// Markdown output.
    pub json: bool,
    pub otp_code: String,
}

} // verus!
