use vstd::prelude::*;

use crate::cmd_find::{course_tag, opt_str, push_course_tag};
use crate::style::{banner, push_banner, push_styled, styled, Styles};
use crate::content::{
    copy_string, kind_passes, lowercase_filter, passes_filter, ContentSummary, CourseContents,
};
use crate::query_match::{alnum_of, folded_of, key_found_in, QueryKey};
use crate::sorting::{stable_sort, stably_sorted, SortKey};
use crate::text::{
    chars_of, compare_text, contains, lemma_text_order_laws, lowercase_of, num_order, seq_contains,
    push_char, push_str, text_order, then_order,
};

verus! {

/// One content node found by cross-course search.
pub struct SearchRecord {
    pub course_index: usize,
    pub course_title: String,
    pub id: String,
    pub title: String,
    pub kind: String,
    pub description_count: usize,
    pub attachment_count: usize,
}

impl SortKey for SearchRecord {
    open spec fn key_le(self, other: Self) -> bool {
        then_order(
            num_order(self.course_index as int, other.course_index as int),
            then_order(
                text_order(self.kind@, other.kind@),
                then_order(text_order(self.title@, other.title@), text_order(self.id@, other.id@)),
            ),
        ) <= 0
    }

    fn le(&self, other: &Self) -> (r: bool) {
        if self.course_index != other.course_index {
            return self.course_index < other.course_index;
        }
        let c = compare_text(self.kind.as_str(), other.kind.as_str());
        if c != 0 {
            return c < 0;
        }
        let c = compare_text(self.title.as_str(), other.title.as_str());
        if c != 0 {
            return c < 0;
        }
        compare_text(self.id.as_str(), other.id.as_str()) <= 0
    }

    proof fn lemma_total(a: Self, b: Self) {
        lemma_text_order_laws(a.kind@, b.kind@, b.kind@);
        lemma_text_order_laws(a.title@, b.title@, b.title@);
        lemma_text_order_laws(a.id@, b.id@, b.id@);
    }

    proof fn lemma_trans(a: Self, b: Self, c: Self) {
        lemma_text_order_laws(a.kind@, b.kind@, c.kind@);
        lemma_text_order_laws(a.title@, b.title@, c.title@);
        lemma_text_order_laws(a.id@, b.id@, c.id@);
    }
}

/// Orders search results by course index, then kind, title and id.
pub fn sort_search_records(records: &mut Vec<SearchRecord>)
    ensures
        stably_sorted(old(records)@, final(records)@),
{
    stable_sort(records);
}

/// Search results are ordered by course index, then kind, title and id: in
/// any stable sort, each later field only orders results that agree on all
/// earlier ones.
pub proof fn lemma_search_order(input: Seq<SearchRecord>, out: Seq<SearchRecord>, i: int, j: int)
    requires
        stably_sorted(input, out),
        0 <= i < j < out.len(),
    ensures
        ({
            let (x, y) = (out[i], out[j]);
            &&& x.course_index <= y.course_index
            &&& x.course_index == y.course_index ==> !crate::text::text_lt(y.kind@, x.kind@)
            &&& x.course_index == y.course_index && x.kind@ == y.kind@ ==> !crate::text::text_lt(y.title@, x.title@)
            &&& x.course_index == y.course_index && x.kind@ == y.kind@ && x.title@ == y.title@
                ==> !crate::text::text_lt(y.id@, x.id@)
        }),
{
    let (x, y) = (out[i], out[j]);
    assert(x.key_le(y));
    crate::text::lemma_text_order_laws(x.kind@, y.kind@, y.kind@);
    crate::text::lemma_text_order_laws(x.title@, y.title@, y.title@);
    crate::text::lemma_text_order_laws(x.id@, y.id@, y.id@);
}

/// A node is a search hit: the normalised query is found in its title or in
/// one of its descriptions, or the raw query occurs in its id.
pub open spec fn search_hit(c: ContentSummary, query: Seq<char>) -> bool {
    let f = folded_of(query);
    let a = alnum_of(f);
    ||| key_found_in(f, a, c.title@)
    ||| exists|j: int| 0 <= j < c.descriptions@.len() && key_found_in(f, a, #[trigger] c.descriptions@[j]@)
    ||| seq_contains(c.id@, query)
}

/// `r` describes node `c` of course `course`.
pub open spec fn search_record_for(r: SearchRecord, course: CourseContents, c: ContentSummary) -> bool {
    &&& r.course_index == course.course_index
    &&& r.course_title@ == course.course_title@
    &&& r.id@ == c.id@
    &&& r.title@ == c.title@
    &&& r.kind@ == c.kind@
    &&& r.description_count == c.descriptions@.len()
    &&& r.attachment_count == c.attachment_count
}

/// The (course position, node position) of every hit among the first `n`
/// courses, in course order and then node order.
pub open spec fn search_hits(
    courses: Seq<CourseContents>,
    query: Seq<char>,
    kind: Option<Seq<char>>,
    n: nat,
) -> Seq<(int, int)>
    decreases n,
{
    if n == 0 || n > courses.len() {
        seq![]
    } else {
        search_hits(courses, query, kind, (n - 1) as nat) + course_search_hits(
            courses[n - 1],
            n - 1,
            query,
            kind,
            courses[n - 1].contents@.len(),
        )
    }
}

/// The hits among the first `m` nodes of one course (at position `pos`).
pub open spec fn course_search_hits(
    course: CourseContents,
    pos: int,
    query: Seq<char>,
    kind: Option<Seq<char>>,
    m: nat,
) -> Seq<(int, int)>
    decreases m,
{
    if m == 0 || m > course.contents@.len() {
        seq![]
    } else {
        let c = course.contents@[m - 1];
        course_search_hits(course, pos, query, kind, (m - 1) as nat) + if kind_passes(c, kind)
            && search_hit(c, query) {
            seq![(pos, m - 1)]
        } else {
            seq![]
        }
    }
}

/// `found` lists the hits in order.
pub open spec fn describes_search(
    found: Seq<SearchRecord>,
    courses: Seq<CourseContents>,
    hits: Seq<(int, int)>,
) -> bool {
    &&& found.len() == hits.len()
    &&& forall|k: int|
        0 <= k < found.len() ==> {
            &&& 0 <= (#[trigger] hits[k]).0 < courses.len()
            &&& 0 <= hits[k].1 < courses[hits[k].0].contents@.len()
            &&& search_record_for(found[k], courses[hits[k].0], courses[hits[k].0].contents@[hits[k].1])
        }
}

proof fn lemma_course_search_hits_contain(
    course: CourseContents,
    pos: int,
    query: Seq<char>,
    kind: Option<Seq<char>>,
    m: nat,
    target: int,
)
    requires
        0 <= target < m <= course.contents@.len(),
        kind_passes(course.contents@[target], kind),
        search_hit(course.contents@[target], query),
    ensures
        course_search_hits(course, pos, query, kind, m).contains((pos, target)),
    decreases m,
{
    let prev = course_search_hits(course, pos, query, kind, (m - 1) as nat);
    let all = course_search_hits(course, pos, query, kind, m);
    if target == m - 1 {
        assert(all[all.len() - 1] == (pos, target));
    } else {
        lemma_course_search_hits_contain(course, pos, query, kind, (m - 1) as nat, target);
        let k = choose|k: int| 0 <= k < prev.len() && prev[k] == (pos, target);
        assert(all[k] == prev[k]);
    }
}

proof fn lemma_search_hits_contain(
    courses: Seq<CourseContents>,
    query: Seq<char>,
    kind: Option<Seq<char>>,
    n: nat,
    p: int,
    m: int,
)
    requires
        0 <= p < n <= courses.len(),
        0 <= m < courses[p].contents@.len(),
        kind_passes(courses[p].contents@[m], kind),
        search_hit(courses[p].contents@[m], query),
    ensures
        search_hits(courses, query, kind, n).contains((p, m)),
    decreases n,
{
    let prev = search_hits(courses, query, kind, (n - 1) as nat);
    let last = course_search_hits(
        courses[n - 1],
        n - 1,
        query,
        kind,
        courses[n - 1].contents@.len(),
    );
    let all = search_hits(courses, query, kind, n);
    assert(all == prev + last);
    if p == n - 1 {
        lemma_course_search_hits_contain(
            courses[p],
            p,
            query,
            kind,
            courses[p].contents@.len(),
            m,
        );
        let k = choose|k: int| 0 <= k < last.len() && last[k] == (p, m);
        assert(all[prev.len() + k] == last[k]);
    } else {
        lemma_search_hits_contain(courses, query, kind, (n - 1) as nat, p, m);
        let k = choose|k: int| 0 <= k < prev.len() && prev[k] == (p, m);
        assert(all[k] == prev[k]);
    }
}

proof fn lemma_course_search_hits_are_hits(
    course: CourseContents,
    pos: int,
    query: Seq<char>,
    kind: Option<Seq<char>>,
    m: nat,
    h: int,
)
    requires
        m <= course.contents@.len(),
        0 <= h < course_search_hits(course, pos, query, kind, m).len(),
    ensures
        ({
            let e = course_search_hits(course, pos, query, kind, m)[h];
            &&& e.0 == pos
            &&& 0 <= e.1 < m
            &&& kind_passes(course.contents@[e.1], kind)
            &&& search_hit(course.contents@[e.1], query)
        }),
    decreases m,
{
    let prev = course_search_hits(course, pos, query, kind, (m - 1) as nat);
    if h < prev.len() {
        lemma_course_search_hits_are_hits(course, pos, query, kind, (m - 1) as nat, h);
    }
}

proof fn lemma_search_hits_are_hits(
    courses: Seq<CourseContents>,
    query: Seq<char>,
    kind: Option<Seq<char>>,
    n: nat,
    h: int,
)
    requires
        n <= courses.len(),
        0 <= h < search_hits(courses, query, kind, n).len(),
    ensures
        ({
            let e = search_hits(courses, query, kind, n)[h];
            &&& 0 <= e.0 < n
            &&& 0 <= e.1 < courses[e.0].contents@.len()
            &&& kind_passes(courses[e.0].contents@[e.1], kind)
            &&& search_hit(courses[e.0].contents@[e.1], query)
        }),
    decreases n,
{
    let prev = search_hits(courses, query, kind, (n - 1) as nat);
    if h < prev.len() {
        lemma_search_hits_are_hits(courses, query, kind, (n - 1) as nat, h);
    } else {
        lemma_course_search_hits_are_hits(
            courses[n - 1],
            n - 1,
            query,
            kind,
            courses[n - 1].contents@.len(),
            h - prev.len(),
        );
    }
}

proof fn lemma_hit_is_found(
    courses: Seq<CourseContents>,
    query: Seq<char>,
    kind: Option<Seq<char>>,
    out: Seq<SearchRecord>,
    p: int,
    m: int,
)
    requires
        exists|found: Seq<SearchRecord>|
            describes_search(found, courses, search_hits(courses, query, kind, courses.len()))
                && stably_sorted(found, out),
        0 <= p < courses.len(),
        0 <= m < courses[p].contents@.len(),
        kind_passes(courses[p].contents@[m], kind),
        search_hit(courses[p].contents@[m], query),
    ensures
        exists|k: int|
            0 <= k < out.len() && (#[trigger] out[k]).course_index == courses[p].course_index
                && out[k].id@ == courses[p].contents@[m].id@,
{
    let c = courses[p].contents@[m];
    let hits = search_hits(courses, query, kind, courses.len());
    lemma_search_hits_contain(courses, query, kind, courses.len(), p, m);
    let found = choose|found: Seq<SearchRecord>|
        describes_search(found, courses, hits) && stably_sorted(found, out);
    let h = choose|h: int| 0 <= h < hits.len() && hits[h] == (p, m);
    assert(hits[h] == (p, m));
    let r = found[h];
    assert(search_record_for(r, courses[p], c));
    found.to_multiset_ensures();
    out.to_multiset_ensures();
    assert(found.contains(r));
    assert(found.to_multiset().count(r) > 0);
    assert(out.to_multiset() == found.to_multiset());
    assert(out.to_multiset().count(r) > 0);
    assert(out.contains(r));
    let k = choose|k: int| 0 <= k < out.len() && out[k] == r;
    assert(out[k].course_index == courses[p].course_index);
}

/// Search reads descriptions: a node of the kind asked for, one of whose
/// descriptions holds the normalised query, is among the search results
/// (with its course and id), whatever its title and id.
pub proof fn lemma_description_match_is_found(
    courses: Seq<CourseContents>,
    query: Seq<char>,
    kind: Option<Seq<char>>,
    out: Seq<SearchRecord>,
    p: int,
    m: int,
    d: int,
)
    requires
        exists|found: Seq<SearchRecord>|
            describes_search(found, courses, search_hits(courses, query, kind, courses.len()))
                && stably_sorted(found, out),
        0 <= p < courses.len(),
        0 <= m < courses[p].contents@.len(),
        kind is None || courses[p].contents@[m].kind@ == lowercase_of(kind->0),
        0 <= d < courses[p].contents@[m].descriptions@.len(),
        key_found_in(
            folded_of(query),
            alnum_of(folded_of(query)),
            courses[p].contents@[m].descriptions@[d]@,
        ),
    ensures
        exists|k: int|
            0 <= k < out.len() && (#[trigger] out[k]).course_index == courses[p].course_index
                && out[k].id@ == courses[p].contents@[m].id@,
{
    assert(search_hit(courses[p].contents@[m], query));
    lemma_hit_is_found(courses, query, kind, out, p, m);
}

/// Search reads titles and ids: a node of the kind asked for whose title
/// holds the normalised query, or whose id holds the query text, is among
/// the search results (with its course and id).
pub proof fn lemma_title_or_id_match_is_found(
    courses: Seq<CourseContents>,
    query: Seq<char>,
    kind: Option<Seq<char>>,
    out: Seq<SearchRecord>,
    p: int,
    m: int,
)
    requires
        exists|found: Seq<SearchRecord>|
            describes_search(found, courses, search_hits(courses, query, kind, courses.len()))
                && stably_sorted(found, out),
        0 <= p < courses.len(),
        0 <= m < courses[p].contents@.len(),
        kind is None || courses[p].contents@[m].kind@ == lowercase_of(kind->0),
        key_found_in(folded_of(query), alnum_of(folded_of(query)), courses[p].contents@[m].title@)
            || seq_contains(courses[p].contents@[m].id@, query),
    ensures
        exists|k: int|
            0 <= k < out.len() && (#[trigger] out[k]).course_index == courses[p].course_index
                && out[k].id@ == courses[p].contents@[m].id@,
{
    assert(search_hit(courses[p].contents@[m], query));
    lemma_hit_is_found(courses, query, kind, out, p, m);
}

/// Search finds nothing else: every result is a node of the kind asked for
/// whose title or a description holds the normalised query or whose id holds
/// the query text.
pub proof fn lemma_search_results_match(
    courses: Seq<CourseContents>,
    query: Seq<char>,
    kind: Option<Seq<char>>,
    out: Seq<SearchRecord>,
    k: int,
)
    requires
        exists|found: Seq<SearchRecord>|
            describes_search(found, courses, search_hits(courses, query, kind, courses.len()))
                && stably_sorted(found, out),
        0 <= k < out.len(),
    ensures
        exists|p: int, m: int|
            0 <= p < courses.len() && 0 <= m < courses[p].contents@.len() && {
                let c = #[trigger] courses[p].contents@[m];
                &&& out[k].course_index == courses[p].course_index
                &&& out[k].id@ == c.id@
                &&& kind is None || c.kind@ == lowercase_of(kind->0)
                &&& {
                    ||| key_found_in(folded_of(query), alnum_of(folded_of(query)), c.title@)
                    ||| exists|d: int|
                        0 <= d < c.descriptions@.len() && key_found_in(
                            folded_of(query),
                            alnum_of(folded_of(query)),
                            #[trigger] c.descriptions@[d]@,
                        )
                    ||| seq_contains(c.id@, query)
                }
            },
{
    let hits = search_hits(courses, query, kind, courses.len());
    let found = choose|found: Seq<SearchRecord>|
        describes_search(found, courses, hits) && stably_sorted(found, out);
    let r = out[k];
    found.to_multiset_ensures();
    out.to_multiset_ensures();
    assert(out.contains(r));
    assert(out.to_multiset().count(r) > 0);
    assert(found.to_multiset().count(r) > 0);
    assert(found.contains(r));
    let h = choose|h: int| 0 <= h < found.len() && found[h] == r;
    let (p, m) = hits[h];
    lemma_search_hits_are_hits(courses, query, kind, courses.len(), h);
    let c = courses[p].contents@[m];
    assert(kind_passes(c, kind) && search_hit(c, query));
}

/// Whether the key is found in one of the descriptions.
fn found_in_descriptions(key: &QueryKey, descriptions: &Vec<String>) -> (r: bool)
    ensures
        r == exists|j: int|
            0 <= j < descriptions@.len() && key_found_in(
                key.folded_view(),
                key.compact_view(),
                #[trigger] descriptions@[j]@,
            ),
{
    let mut j: usize = 0;
    while j < descriptions.len()
        invariant
            j <= descriptions.len(),
            forall|i: int|
                0 <= i < j ==> !key_found_in(key.folded_view(), key.compact_view(), #[trigger] descriptions@[i]@),
        decreases descriptions.len() - j,
    {
        if key.contains_in(descriptions[j].as_str()) {
            return true;
        }
        j += 1;
    }
    false
}

/// The search results across courses, ordered by course index, kind, title
/// and id.
pub fn collect_search_matches(courses: &Vec<CourseContents>, query: &str, kind: Option<&str>) -> (out: Vec<SearchRecord>)
    ensures
        exists|found: Seq<SearchRecord>|
            describes_search(found, courses@, search_hits(courses@, query@, opt_str(kind), courses@.len()))
                && stably_sorted(found, out@),
{
    let key = QueryKey::new(query);
    let query_cs = chars_of(query);
    let kind_lc = lowercase_filter(kind);
    let ghost kv = opt_str(kind);
    let mut found: Vec<SearchRecord> = Vec::new();
    let mut n: usize = 0;
    while n < courses.len()
        invariant
            n <= courses.len(),
            key.folded_view() == folded_of(query@),
            key.compact_view() == alnum_of(folded_of(query@)),
            query_cs@ == query@,
            kv == opt_str(kind),
            match kind {
                Some(k) => kind_lc matches Some(v) && v@ == lowercase_of(k@),
                None => kind_lc is None,
            },
            describes_search(found@, courses@, search_hits(courses@, query@, kv, n as nat)),
        decreases courses.len() - n,
    {
        let course = &courses[n];
        let ghost before_course = found@;
        let ghost base = search_hits(courses@, query@, kv, n as nat);
        let mut i: usize = 0;
        while i < course.contents.len()
            invariant
                n < courses.len(),
                *course == courses@[n as int],
                i <= course.contents.len(),
                key.folded_view() == folded_of(query@),
                key.compact_view() == alnum_of(folded_of(query@)),
                query_cs@ == query@,
                kv == opt_str(kind),
                match kind {
                    Some(k) => kind_lc matches Some(v) && v@ == lowercase_of(k@),
                    None => kind_lc is None,
                },
                describes_search(
                    found@,
                    courses@,
                    base + course_search_hits(*course, n as int, query@, kv, i as nat),
                ),
            decreases course.contents.len() - i,
        {
            let c = &course.contents[i];
            let ghost prev = base + course_search_hits(*course, n as int, query@, kv, i as nat);
            let ghost next = base + course_search_hits(*course, n as int, query@, kv, (i + 1) as nat);
            let ghost old_found = found@;
            let hit = passes_filter(c, &kind_lc) && (key.contains_in(c.title.as_str())
                || found_in_descriptions(&key, &c.descriptions) || contains(
                &chars_of(c.id.as_str()),
                &query_cs,
            ));
            if hit {
                let r = SearchRecord {
                    course_index: course.course_index,
                    course_title: copy_string(&course.course_title),
                    id: copy_string(&c.id),
                    title: copy_string(&c.title),
                    kind: copy_string(&c.kind),
                    description_count: c.descriptions.len(),
                    attachment_count: c.attachment_count,
                };
                found.push(r);
                proof {
                    assert(next =~= prev.push((n as int, i as int)));
                    assert forall|k: int| 0 <= k < found@.len() implies {
                        &&& 0 <= (#[trigger] next[k]).0 < courses@.len()
                        &&& 0 <= next[k].1 < courses@[next[k].0].contents@.len()
                        &&& search_record_for(found@[k], courses@[next[k].0], courses@[next[k].0].contents@[next[k].1])
                    } by {
                        if k < old_found.len() {
                            assert(next[k] == prev[k]);
                        }
                    }
                }
            } else {
                proof {
                    assert(next =~= prev);
                }
            }
            i += 1;
        }
        proof {
            assert(search_hits(courses@, query@, kv, (n + 1) as nat) == base + course_search_hits(
                *course,
                n as int,
                query@,
                kv,
                course.contents@.len(),
            ));
        }
        n += 1;
    }
    let ghost unsorted = found@;
    sort_search_records(&mut found);
    assert(describes_search(unsorted, courses@, search_hits(courses@, query@, kv, courses@.len()))
        && stably_sorted(unsorted, found@));
    found
}


/// One line of the readable search result: `[index] course > [kind] title id`.
pub open spec fn search_line(st: Styles, r: SearchRecord) -> Seq<char> {
    course_tag(st, r.course_index as nat, r.course_title@) + seq!['['] + r.kind@ + seq![']', ' ']
        + r.title@ + seq![' '] + styled(st.dim, r.id@) + seq!['\n']
}

/// The lines of the first `n` results.
pub open spec fn search_lines(st: Styles, records: Seq<SearchRecord>, n: nat) -> Seq<char>
    decreases n,
{
    if n == 0 || n > records.len() {
        seq![]
    } else {
        search_lines(st, records, (n - 1) as nat) + search_line(st, records[n - 1])
    }
}

/// The readable search result: a banner, a blank line, one line per match.
pub open spec fn search_text(st: Styles, records: Seq<SearchRecord>) -> Seq<char> {
    banner(st, "搜索结果"@) + seq!['\n', '\n'] + search_lines(st, records, records.len())
}

fn push_search_line(buf: &mut String, st: &Styles, r: &SearchRecord)
    ensures
        final(buf)@ == old(buf)@ + search_line(*st, *r),
{
    let ghost start = buf@;
    push_course_tag(buf, st, r.course_index, r.course_title.as_str());
    push_char(buf, '[');
    push_str(buf, r.kind.as_str());
    push_char(buf, ']');
    push_char(buf, ' ');
    push_str(buf, r.title.as_str());
    push_char(buf, ' ');
    push_styled(buf, &st.dim, r.id.as_str());
    push_char(buf, '\n');
    assert(buf@ =~= start + search_line(*st, *r));
}

/// Renders the readable search result (see [`search_text`]).
pub fn render_search_matches(st: &Styles, records: &Vec<SearchRecord>) -> (r: String)
    ensures
        r@ == search_text(*st, records@),
{
    let mut buf = String::new();
    push_banner(&mut buf, st, "搜索结果");
    push_char(&mut buf, '\n');
    push_char(&mut buf, '\n');
    let ghost head = buf@;
    let mut i: usize = 0;
    while i < records.len()
        invariant
            i <= records.len(),
            buf@ == head + search_lines(*st, records@, i as nat),
        decreases records.len() - i,
    {
        push_search_line(&mut buf, st, &records[i]);
        assert(buf@ =~= head + search_lines(*st, records@, (i + 1) as nat));
        i += 1;
    }
    assert(buf@ =~= search_text(*st, records@));
    buf
}

/// The `search` command.
pub struct CommandSearch {
    pub force: bool,
    /// The search keyword.
    pub query: String,
    /// Only this kind of content, such as `assignment` or `document`.
    pub kind: Option<String>,
    pub all_term: bool,
    /// Markdown output.
    pub json: bool,
    pub otp_code: String,
}

} // verus!
