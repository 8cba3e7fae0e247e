use vstd::prelude::*;

use crate::content::{copy_string, kind_passes, lowercase_filter, passes_filter, ContentSummary};
use crate::json::{entry_get, find_entry, keys_ascending, object_insert};
use crate::query_match::{
    alnum_of, folded_of, key_found_in, match_type_name, title_match_rank, title_match_type,
    QueryKey,
};
use crate::sorting::{drop_ranks, stable_sort, stably_sorted, strip_ranks, SortKey};
use crate::style::{
    banner, blue_bold, bullet, push_banner, push_blue_bold, push_bullet, push_styled, styled, Styles,
};
use crate::text::{
    chars_of, compare_text, contains, decimal, lemma_text_order_laws, lowercase_of, push_char,
    push_decimal, push_str, seq_contains, string_from_chars, text_order, then_order,
};

verus! {

/// One node of a course's content tree.
pub struct TreeNodeRecord {
    pub id: String,
    pub title: String,
    pub kind: String,
    pub has_link: bool,
    pub attachment_count: usize,
    pub description_count: usize,
}

/// One node that matched a title query, with how it matched.
pub struct TreeFindRecord {
    pub id: String,
    pub title: String,
    pub kind: String,
    pub has_link: bool,
    pub attachment_count: usize,
    pub description_count: usize,
    pub match_type: String,
}

/// `r` describes the content node `c`.
pub open spec fn node_record_of(r: TreeNodeRecord, c: ContentSummary) -> bool {
    &&& r.id@ == c.id@
    &&& r.title@ == c.title@
    &&& r.kind@ == c.kind@
    &&& r.has_link == c.has_link
    &&& r.attachment_count == c.attachment_count
    &&& r.description_count == c.descriptions@.len()
}

/// `r` describes the content node `c` matched as `match_type`.
pub open spec fn find_record_of(r: TreeFindRecord, c: ContentSummary, match_type: Seq<char>) -> bool {
    &&& r.id@ == c.id@
    &&& r.title@ == c.title@
    &&& r.kind@ == c.kind@
    &&& r.has_link == c.has_link
    &&& r.attachment_count == c.attachment_count
    &&& r.description_count == c.descriptions@.len()
    &&& r.match_type@ == match_type
}

/// The tree record of a content node.
pub fn node_record(content: &ContentSummary) -> (r: TreeNodeRecord)
    ensures
        node_record_of(r, *content),
{
    TreeNodeRecord {
        id: copy_string(&content.id),
        title: copy_string(&content.title),
        kind: copy_string(&content.kind),
        has_link: content.has_link,
        attachment_count: content.attachment_count,
        description_count: content.descriptions.len(),
    }
}

/// The match record of a content node.
pub fn find_record(content: &ContentSummary, match_type: &str) -> (r: TreeFindRecord)
    ensures
        find_record_of(r, *content, match_type@),
{
    TreeFindRecord {
        id: copy_string(&content.id),
        title: copy_string(&content.title),
        kind: copy_string(&content.kind),
        has_link: content.has_link,
        attachment_count: content.attachment_count,
        description_count: content.descriptions.len(),
        match_type: string_from_chars(&chars_of(match_type)),
    }
}

// ---------------------------------------------------------------------------
// Counting kinds
// ---------------------------------------------------------------------------

/// How many of the nodes have kind `k`.
pub open spec fn kind_count(contents: Seq<ContentSummary>, k: Seq<char>) -> nat
    decreases contents.len(),
{
    if contents.len() == 0 {
        0
    } else {
        kind_count(contents.drop_last(), k) + if contents.last().kind@ == k {
            1nat
        } else {
            0nat
        }
    }
}

proof fn lemma_kind_count_bound(contents: Seq<ContentSummary>, k: Seq<char>)
    ensures
        kind_count(contents, k) <= contents.len(),
    decreases contents.len(),
{
    if contents.len() > 0 {
        lemma_kind_count_bound(contents.drop_last(), k);
    }
}

/// The count map of the kinds of `contents`: each kind that occurs, with the
/// number of nodes of that kind.
pub open spec fn counts_by_kind(counts: Seq<(String, usize)>, contents: Seq<ContentSummary>) -> bool {
    &&& keys_ascending(counts)
    &&& forall|k: Seq<char>|
        #[trigger] entry_get(counts, k) == if kind_count(contents, k) > 0 {
            Some(kind_count(contents, k) as usize)
        } else {
            None
        }
}

/// Counts the content nodes of each kind, in ascending kind order.
pub fn count_kinds(contents: &Vec<ContentSummary>) -> (counts: Vec<(String, usize)>)
    ensures
        counts_by_kind(counts@, contents@),
{
    let mut counts: Vec<(String, usize)> = Vec::new();
    let mut i: usize = 0;
    proof {
        assert forall|k: Seq<char>| #[trigger] entry_get(counts@, k) == if kind_count(
            contents@.take(0),
            k,
        ) > 0 {
            Some(kind_count(contents@.take(0), k) as usize)
        } else {
            None
        } by {
            crate::json::lemma_entry_index_spec(counts@, k);
        }
    }
    while i < contents.len()
        invariant
            i <= contents.len(),
            counts_by_kind(counts@, contents@.take(i as int)),
        decreases contents.len() - i,
    {
        let ghost before = counts@;
        let ghost pre = contents@.take(i as int);
        let ghost post = contents@.take(i + 1);
        let kind = copy_string(&contents[i].kind);
        proof {
            assert(post.drop_last() =~= pre);
            lemma_kind_count_bound(pre, kind@);
        }
        let value: usize = match find_entry(&counts, kind.as_str()) {
            Some(p) => {
                proof {
                    crate::json::lemma_entry_index_spec(counts@, kind@);
                    assert(entry_get(counts@, kind@) == Some(counts@[p as int].1));
                }
                counts[p].1 + 1
            },
            None => 1,
        };
        object_insert(&mut counts, kind, value);
        proof {
            assert forall|k: Seq<char>| #[trigger] entry_get(counts@, k) == if kind_count(post, k)
                > 0 {
                Some(kind_count(post, k) as usize)
            } else {
                None
            } by {
                assert(entry_get(before, k) == if kind_count(pre, k) > 0 {
                    Some(kind_count(pre, k) as usize)
                } else {
                    None
                });
            }
        }
        i += 1;
    }
    assert(contents@.take(contents.len() as int) =~= contents@);
    counts
}

/// The last value given for `k` among the pairs.
pub open spec fn last_value_for(pairs: Seq<(String, usize)>, k: Seq<char>) -> Option<usize>
    decreases pairs.len(),
{
    if pairs.len() == 0 {
        None
    } else if pairs.last().0@ == k {
        Some(pairs.last().1)
    } else {
        last_value_for(pairs.drop_last(), k)
    }
}

/// A count map from key-value pairs, later pairs overriding earlier ones.
pub fn counts_from_pairs(pairs: Vec<(String, usize)>) -> (counts: Vec<(String, usize)>)
    ensures
        keys_ascending(counts@),
        forall|k: Seq<char>| #[trigger] entry_get(counts@, k) == last_value_for(pairs@, k),
{
    let ghost orig = pairs@;
    let mut pairs = pairs;
    let mut counts: Vec<(String, usize)> = Vec::new();
    let ghost mut i: int = 0;
    proof {
        assert forall|k: Seq<char>| #[trigger] entry_get(counts@, k) == last_value_for(
            orig.take(0),
            k,
        ) by {
            crate::json::lemma_entry_index_spec(counts@, k);
        }
    }
    while pairs.len() > 0
        invariant
            0 <= i <= orig.len(),
            pairs@ == orig.skip(i),
            keys_ascending(counts@),
            forall|k: Seq<char>| #[trigger] entry_get(counts@, k) == last_value_for(orig.take(i), k),
        decreases pairs.len(),
    {
        let ghost before = counts@;
        let (k, v) = pairs.remove(0);
        object_insert(&mut counts, k, v);
        proof {
            assert(orig.take(i + 1).drop_last() =~= orig.take(i));
            assert(orig.take(i + 1).last() == orig[i]);
            assert forall|q: Seq<char>| #[trigger] entry_get(counts@, q) == last_value_for(
                orig.take(i + 1),
                q,
            ) by {
                assert(entry_get(before, q) == last_value_for(orig.take(i), q));
            }
            i = i + 1;
            assert(pairs@ =~= orig.skip(i));
        }
    }
    proof {
        assert(orig.take(i) =~= orig);
    }
    counts
}

// ---------------------------------------------------------------------------
// Summary text
// ---------------------------------------------------------------------------

/// `kind:count` for one entry.
pub open spec fn count_item(e: (String, usize)) -> Seq<char> {
    e.0@ + seq![':'] + decimal(e.1 as nat)
}

/// The first `n` entries as `kind:count` joined by `, `.
pub open spec fn summary_of(counts: Seq<(String, usize)>, n: nat) -> Seq<char>
    decreases n,
{
    if n == 0 || n > counts.len() {
        seq![]
    } else if n == 1 {
        count_item(counts[0])
    } else {
        summary_of(counts, (n - 1) as nat) + ", "@ + count_item(counts[n - 1])
    }
}

/// The one-line summary of a count map (keys ascending, as the map keeps
/// them), in key order.
pub fn summary_text_from_counts(counts: &Vec<(String, usize)>) -> (r: String)
    requires
        keys_ascending(counts@),
    ensures
        r@ == summary_of(counts@, counts@.len()),
{
    let mut r = String::new();
    let mut i: usize = 0;
    while i < counts.len()
        invariant
            i <= counts.len(),
            r@ == summary_of(counts@, i as nat),
        decreases counts.len() - i,
    {
        let ghost before = r@;
        if i > 0 {
            push_str(&mut r, ", ");
        }
        push_str(&mut r, counts[i].0.as_str());
        push_char(&mut r, ':');
        push_decimal(&mut r, counts[i].1);
        assert(r@ =~= summary_of(counts@, (i + 1) as nat));
        i += 1;
    }
    r
}

// ---------------------------------------------------------------------------
// Finding nodes
// ---------------------------------------------------------------------------

/// A node matches a tree query: the normalised key is found in its title, or
/// the raw query occurs in its id.
pub fn tree_matches_query(title: &str, id: &str, query: &QueryKey, raw_query: &str) -> (r: bool)
    ensures
        r == (key_found_in(query.folded_view(), query.compact_view(), title@) || seq_contains(
            id@,
            raw_query@,
        )),
{
    query.contains_in(title) || contains(&chars_of(id), &chars_of(raw_query))
}

/// The rank of a node for a tree query: its title-match rank, or 9 when only
/// the normalised substring search finds it.
pub open spec fn tree_rank(c: ContentSummary, query: Seq<char>) -> Option<u8> {
    match title_match_rank(c.title@, c.id@, query) {
        Some(r) => Some(r),
        None => if key_found_in(folded_of(query), alnum_of(folded_of(query)), c.title@)
            || seq_contains(c.id@, query) {
            Some(9u8)
        } else {
            None
        },
    }
}

/// The name of a tree-query rank.
pub open spec fn tree_match_name(rank: u8) -> Seq<char> {
    if rank == 9 {
        "contains_normalized"@
    } else {
        match_type_name(rank)
    }
}

/// Tree lookup applies the same title matching as `find`: a node that title
/// matching ranks `r` keeps rank `r` and its match name, and the only nodes
/// tree lookup adds are normalised substring hits, ranked 9 after all others.
pub proof fn lemma_tree_find_extends_find(c: ContentSummary, query: Seq<char>)
    ensures
        title_match_rank(c.title@, c.id@, query) matches Some(r) ==> tree_rank(c, query) == Some(r)
            && tree_match_name(r) == match_type_name(r),
        tree_rank(c, query) matches Some(r) ==> r <= 9,
        tree_rank(c, query) == Some(9u8) ==> title_match_rank(c.title@, c.id@, query) is None,
{
    crate::query_match::lemma_rank_bounded(c.title@, c.id@, query);
}

/// The positions and ranks of the matching nodes among the first `n`.
pub open spec fn tree_hits(contents: Seq<ContentSummary>, query: Seq<char>, n: nat) -> Seq<(int, u8)>
    decreases n,
{
    if n == 0 || n > contents.len() {
        seq![]
    } else {
        tree_hits(contents, query, (n - 1) as nat) + match tree_rank(contents[n - 1], query) {
            Some(r) => seq![(n - 1, r)],
            None => seq![],
        }
    }
}

/// `scored` lists the matching nodes in content order with their ranks.
pub open spec fn tree_scored(
    contents: Seq<ContentSummary>,
    query: Seq<char>,
    scored: Seq<(u8, TreeFindRecord)>,
) -> bool {
    let hits = tree_hits(contents, query, contents.len());
    &&& scored.len() == hits.len()
    &&& forall|k: int|
        0 <= k < scored.len() ==> {
            &&& 0 <= (#[trigger] hits[k]).0 < contents.len()
            &&& scored[k].0 == hits[k].1
            &&& find_record_of(scored[k].1, contents[hits[k].0], tree_match_name(hits[k].1))
        }
}

impl SortKey for (u8, TreeFindRecord) {
    open spec fn key_le(self, other: Self) -> bool {
        then_order(
            crate::text::num_order(self.0 as int, other.0 as int),
            then_order(
                text_order(self.1.kind@, other.1.kind@),
                then_order(
                    text_order(self.1.title@, other.1.title@),
                    text_order(self.1.id@, other.1.id@),
                ),
            ),
        ) <= 0
    }

    fn le(&self, other: &Self) -> (r: bool) {
        if self.0 != other.0 {
            return self.0 < other.0;
        }
        let c = compare_text(self.1.kind.as_str(), other.1.kind.as_str());
        if c != 0 {
            return c < 0;
        }
        let c = compare_text(self.1.title.as_str(), other.1.title.as_str());
        if c != 0 {
            return c < 0;
        }
        compare_text(self.1.id.as_str(), other.1.id.as_str()) <= 0
    }

    proof fn lemma_total(a: Self, b: Self) {
        lemma_text_order_laws(a.1.kind@, b.1.kind@, b.1.kind@);
        lemma_text_order_laws(a.1.title@, b.1.title@, b.1.title@);
        lemma_text_order_laws(a.1.id@, b.1.id@, b.1.id@);
    }

    proof fn lemma_trans(a: Self, b: Self, c: Self) {
        lemma_text_order_laws(a.1.kind@, b.1.kind@, c.1.kind@);
        lemma_text_order_laws(a.1.title@, b.1.title@, c.1.title@);
        lemma_text_order_laws(a.1.id@, b.1.id@, c.1.id@);
    }
}

/// The nodes matching `query`, each with its rank, in content order.
pub fn tree_find_scored(contents: &Vec<ContentSummary>, query: &str) -> (scored: Vec<(u8, TreeFindRecord)>)
    ensures
        tree_scored(contents@, query@, scored@),
{
    let query_key = QueryKey::new(query);
    let mut scored: Vec<(u8, TreeFindRecord)> = Vec::new();
    let mut i: usize = 0;
    while i < contents.len()
        invariant
            i <= contents.len(),
            query_key.folded_view() == folded_of(query@),
            query_key.compact_view() == alnum_of(folded_of(query@)),
            scored@.len() == tree_hits(contents@, query@, i as nat).len(),
            forall|k: int|
                0 <= k < scored@.len() ==> {
                    &&& 0 <= (#[trigger] tree_hits(contents@, query@, i as nat)[k]).0 < i
                    &&& scored@[k].0 == tree_hits(contents@, query@, i as nat)[k].1
                    &&& find_record_of(
                        scored@[k].1,
                        contents@[tree_hits(contents@, query@, i as nat)[k].0],
                        tree_match_name(tree_hits(contents@, query@, i as nat)[k].1),
                    )
                },
        decreases contents.len() - i,
    {
        let c = &contents[i];
        let ghost prev = tree_hits(contents@, query@, i as nat);
        let ghost next = tree_hits(contents@, query@, (i + 1) as nat);
        match title_match_type(c.title.as_str(), c.id.as_str(), query) {
            Some((name, rank)) => {
                scored.push((rank, find_record(c, name)));
                proof {
                    assert(next == prev + seq![(i as int, rank)]);
                    assert forall|k: int| 0 <= k < scored@.len() implies {
                        &&& 0 <= (#[trigger] next[k]).0 < i + 1
                        &&& scored@[k].0 == next[k].1
                        &&& find_record_of(scored@[k].1, contents@[next[k].0], tree_match_name(next[k].1))
                    } by {
                        if k < prev.len() {
                            assert(next[k] == prev[k]);
                        }
                    }
                }
            },
            None => {
                if tree_matches_query(c.title.as_str(), c.id.as_str(), &query_key, query) {
                    scored.push((9, find_record(c, "contains_normalized")));
                    proof {
                        assert(next == prev + seq![(i as int, 9u8)]);
                        assert forall|k: int| 0 <= k < scored@.len() implies {
                            &&& 0 <= (#[trigger] next[k]).0 < i + 1
                            &&& scored@[k].0 == next[k].1
                            &&& find_record_of(scored@[k].1, contents@[next[k].0], tree_match_name(next[k].1))
                        } by {
                            if k < prev.len() {
                                assert(next[k] == prev[k]);
                            }
                        }
                    }
                } else {
                    proof {
                        assert(next =~= prev);
                    }
                }
            },
        }
        i += 1;
    }
    scored
}

/// The nodes matching `query`, best rank first, then by kind, title and id.
pub fn collect_tree_find_matches(contents: &Vec<ContentSummary>, query: &str) -> (out: Vec<TreeFindRecord>)
    ensures
        exists|scored: Seq<(u8, TreeFindRecord)>, sorted: Seq<(u8, TreeFindRecord)>|
            tree_scored(contents@, query@, scored) && stably_sorted(scored, sorted) && out@
                == strip_ranks(sorted),
{
    let mut scored = tree_find_scored(contents, query);
    let ghost unsorted = scored@;
    stable_sort(&mut scored);
    let ghost sorted = scored@;
    let out = drop_ranks(scored);
    assert(tree_scored(contents@, query@, unsorted) && stably_sorted(unsorted, sorted) && out@
        == strip_ranks(sorted));
    out
}

proof fn lemma_tree_hits_contain(contents: Seq<ContentSummary>, query: Seq<char>, n: nat, target: int)
    requires
        0 <= target < n <= contents.len(),
        tree_rank(contents[target], query) is Some,
    ensures
        exists|k: int|
            0 <= k < tree_hits(contents, query, n).len() && #[trigger] tree_hits(contents, query, n)[k]
                == (target, tree_rank(contents[target], query)->0),
    decreases n,
{
    let prev = tree_hits(contents, query, (n - 1) as nat);
    let all = tree_hits(contents, query, n);
    if target == n - 1 {
        assert(all[prev.len() as int] == (target, tree_rank(contents[target], query)->0));
    } else {
        lemma_tree_hits_contain(contents, query, (n - 1) as nat, target);
        let k = choose|k: int|
            0 <= k < prev.len() && #[trigger] prev[k] == (target, tree_rank(contents[target], query)->0);
        assert(all[k] == prev[k]);
    }
}

proof fn lemma_tree_hits_sound(contents: Seq<ContentSummary>, query: Seq<char>, n: nat, h: int)
    requires
        n <= contents.len(),
        0 <= h < tree_hits(contents, query, n).len(),
    ensures
        ({
            let e = tree_hits(contents, query, n)[h];
            &&& 0 <= e.0 < n
            &&& tree_rank(contents[e.0], query) == Some(e.1)
        }),
    decreases n,
{
    let prev = tree_hits(contents, query, (n - 1) as nat);
    if h < prev.len() {
        lemma_tree_hits_sound(contents, query, (n - 1) as nat, h);
    }
}

/// When a node is a tree-lookup hit, in terms of title matching and the
/// normalised substring search: every title match, plus the nodes whose
/// title holds the normalised query or whose id holds the query text.
pub proof fn lemma_tree_hit_condition(c: ContentSummary, query: Seq<char>)
    ensures
        (tree_rank(c, query) is Some) == (title_match_rank(c.title@, c.id@, query) is Some || key_found_in(
            folded_of(query),
            alnum_of(folded_of(query)),
            c.title@,
        ) || seq_contains(c.id@, query)),
{
}

/// Tree lookup misses nothing: a node whose title matches the query, whose
/// title holds the normalised query, or whose id holds the query text is
/// among the results, with its id.
pub proof fn lemma_tree_find_complete(
    contents: Seq<ContentSummary>,
    query: Seq<char>,
    out: Seq<TreeFindRecord>,
    m: int,
)
    requires
        exists|scored: Seq<(u8, TreeFindRecord)>, sorted: Seq<(u8, TreeFindRecord)>|
            tree_scored(contents, query, scored) && stably_sorted(scored, sorted) && out
                == strip_ranks(sorted),
        0 <= m < contents.len(),
        title_match_rank(contents[m].title@, contents[m].id@, query) is Some || key_found_in(
            folded_of(query),
            alnum_of(folded_of(query)),
            contents[m].title@,
        ) || seq_contains(contents[m].id@, query),
    ensures
        exists|k: int| 0 <= k < out.len() && (#[trigger] out[k]).id@ == contents[m].id@,
{
    let c = contents[m];
    lemma_tree_hit_condition(c, query);
    let hits = tree_hits(contents, query, contents.len());
    let (scored, sorted) = choose|scored: Seq<(u8, TreeFindRecord)>, sorted: Seq<(u8, TreeFindRecord)>|
        tree_scored(contents, query, scored) && stably_sorted(scored, sorted) && out
            == strip_ranks(sorted);
    lemma_tree_hits_contain(contents, query, contents.len(), m);
    let h = choose|h: int|
        0 <= h < hits.len() && #[trigger] hits[h] == (m, tree_rank(c, query)->0);
    assert(hits[h] == (m, tree_rank(c, query)->0));
    let e = scored[h];
    assert(e.1.id@ == c.id@);
    scored.to_multiset_ensures();
    sorted.to_multiset_ensures();
    assert(scored.contains(e));
    assert(scored.to_multiset().count(e) > 0);
    assert(sorted.to_multiset().count(e) > 0);
    assert(sorted.contains(e));
    let k = choose|k: int| 0 <= k < sorted.len() && sorted[k] == e;
    assert(out[k] == e.1);
}

/// Tree lookup finds nothing else: every result is a node that title
/// matching ranks under the reported match name, or, named
/// `contains_normalized`, a node whose title holds the normalised query or
/// whose id holds the query text.
pub proof fn lemma_tree_find_sound(
    contents: Seq<ContentSummary>,
    query: Seq<char>,
    out: Seq<TreeFindRecord>,
    k: int,
)
    requires
        exists|scored: Seq<(u8, TreeFindRecord)>, sorted: Seq<(u8, TreeFindRecord)>|
            tree_scored(contents, query, scored) && stably_sorted(scored, sorted) && out
                == strip_ranks(sorted),
        0 <= k < out.len(),
    ensures
        exists|m: int|
            0 <= m < contents.len() && {
                let c = #[trigger] contents[m];
                &&& out[k].id@ == c.id@
                &&& match title_match_rank(c.title@, c.id@, query) {
                    Some(r) => out[k].match_type@ == match_type_name(r),
                    None => out[k].match_type@ == "contains_normalized"@ && (key_found_in(
                        folded_of(query),
                        alnum_of(folded_of(query)),
                        c.title@,
                    ) || seq_contains(c.id@, query)),
                }
            },
{
    let hits = tree_hits(contents, query, contents.len());
    let (scored, sorted) = choose|scored: Seq<(u8, TreeFindRecord)>, sorted: Seq<(u8, TreeFindRecord)>|
        tree_scored(contents, query, scored) && stably_sorted(scored, sorted) && out
            == strip_ranks(sorted);
    let e = sorted[k];
    assert(out[k] == e.1);
    scored.to_multiset_ensures();
    sorted.to_multiset_ensures();
    assert(sorted.contains(e));
    assert(sorted.to_multiset().count(e) > 0);
    assert(scored.to_multiset().count(e) > 0);
    assert(scored.contains(e));
    let h = choose|h: int| 0 <= h < scored.len() && scored[h] == e;
    lemma_tree_hits_sound(contents, query, contents.len(), h);
    let (m, r) = hits[h];
    let c = contents[m];
    crate::query_match::lemma_rank_bounded(c.title@, c.id@, query);
    assert(find_record_of(e.1, c, tree_match_name(r)));
}

/// Tree lookup results are ordered best rank first, then by kind, title and
/// id: in any stable sort, each later field only orders results that agree
/// on all earlier ones.
pub proof fn lemma_tree_find_order(input: Seq<(u8, TreeFindRecord)>, out: Seq<(u8, TreeFindRecord)>, i: int, j: int)
    requires
        stably_sorted(input, out),
        0 <= i < j < out.len(),
    ensures
        ({
            let (x, y) = (out[i], out[j]);
            &&& x.0 <= y.0
            &&& x.0 == y.0 ==> !crate::text::text_lt(y.1.kind@, x.1.kind@)
            &&& x.0 == y.0 && x.1.kind@ == y.1.kind@ ==> !crate::text::text_lt(y.1.title@, x.1.title@)
            &&& x.0 == y.0 && x.1.kind@ == y.1.kind@ && x.1.title@ == y.1.title@ ==> !crate::text::text_lt(
                y.1.id@,
                x.1.id@,
            )
        }),
{
    let (x, y) = (out[i], out[j]);
    assert(x.key_le(y));
    crate::text::lemma_text_order_laws(x.1.kind@, y.1.kind@, y.1.kind@);
    crate::text::lemma_text_order_laws(x.1.title@, y.1.title@, y.1.title@);
    crate::text::lemma_text_order_laws(x.1.id@, y.1.id@, y.1.id@);
}

/// The nodes of one kind (compared with the lower-cased `kind`), in content order.
pub fn filter_kind(contents: &Vec<ContentSummary>, kind: &str) -> (out: Vec<TreeNodeRecord>)
    ensures
        out@.len() == contents@.filter(|c: ContentSummary| c.kind@ == lowercase_of(kind@)).len(),
        forall|k: int|
            0 <= k < out@.len() ==> node_record_of(
                #[trigger] out@[k],
                contents@.filter(|c: ContentSummary| c.kind@ == lowercase_of(kind@))[k],
            ),
{
    let ghost pred = |c: ContentSummary| c.kind@ == lowercase_of(kind@);
    let kind_lc = lowercase_filter(Some(kind));
    let mut out: Vec<TreeNodeRecord> = Vec::new();
    let mut i: usize = 0;
    while i < contents.len()
        invariant
            i <= contents.len(),
            kind_lc matches Some(v) && v@ == lowercase_of(kind@),
            pred == (|c: ContentSummary| c.kind@ == lowercase_of(kind@)),
            out@.len() == contents@.take(i as int).filter(pred).len(),
            forall|k: int|
                0 <= k < out@.len() ==> node_record_of(
                    #[trigger] out@[k],
                    contents@.take(i as int).filter(pred)[k],
                ),
        decreases contents.len() - i,
    {
        let ghost pre = contents@.take(i as int);
        let ghost post = contents@.take(i + 1);
        let ghost c = contents@[i as int];
        let ghost old_out = out@;
        proof {
            assert(post =~= pre.push(c));
            pre.lemma_filter_push(c, pred);
        }
        if passes_filter(&contents[i], &kind_lc) {
            out.push(node_record(&contents[i]));
            proof {
                assert(pred(c));
                assert(post.filter(pred) == pre.filter(pred).push(c));
                assert forall|k: int| 0 <= k < out@.len() implies node_record_of(
                    #[trigger] out@[k],
                    post.filter(pred)[k],
                ) by {
                    if k < old_out.len() {
                        assert(out@[k] == old_out[k]);
                    }
                }
            }
        } else {
            proof {
                assert(!pred(c));
                assert(post.filter(pred) == pre.filter(pred));
            }
        }
        i += 1;
    }
    assert(contents@.take(contents.len() as int) =~= contents@);
    out
}


/// One line of the readable tree summary: `• [kind] title id`.
pub open spec fn tree_node_line(st: Styles, c: ContentSummary) -> Seq<char> {
    bullet(st) + seq!['['] + styled(st.green, c.kind@) + seq![']', ' '] + c.title@ + seq![' ']
        + styled(st.dim, c.id@) + seq!['\n']
}

/// The lines of the first `n` nodes.
pub open spec fn tree_node_lines(st: Styles, contents: Seq<ContentSummary>, n: nat) -> Seq<char>
    decreases n,
{
    if n == 0 || n > contents.len() {
        seq![]
    } else {
        tree_node_lines(st, contents, (n - 1) as nat) + tree_node_line(st, contents[n - 1])
    }
}

/// The readable tree summary: a banner, the course title, the per-kind
/// summary, a blank line, then one line per node.
pub open spec fn tree_list_text(
    st: Styles,
    course_title: Seq<char>,
    summary: Seq<char>,
    contents: Seq<ContentSummary>,
) -> Seq<char> {
    banner(st, "课程内容树摘要"@) + seq!['\n'] + blue_bold(st, course_title) + seq!['\n'] + summary
        + seq!['\n', '\n'] + tree_node_lines(st, contents, contents.len())
}

fn push_tree_node_line(buf: &mut String, st: &Styles, c: &ContentSummary)
    ensures
        final(buf)@ == old(buf)@ + tree_node_line(*st, *c),
{
    let ghost start = buf@;
    push_bullet(buf, st);
    push_char(buf, '[');
    push_styled(buf, &st.green, c.kind.as_str());
    push_char(buf, ']');
    push_char(buf, ' ');
    push_str(buf, c.title.as_str());
    push_char(buf, ' ');
    push_styled(buf, &st.dim, c.id.as_str());
    push_char(buf, '\n');
    assert(buf@ =~= start + tree_node_line(*st, *c));
}

/// Renders the readable tree summary (see [`tree_list_text`]).
pub fn render_tree_list(
    st: &Styles,
    course_title: &str,
    summary: &str,
    contents: &Vec<ContentSummary>,
) -> (r: String)
    ensures
        r@ == tree_list_text(*st, course_title@, summary@, contents@),
{
    let mut buf = String::new();
    push_banner(&mut buf, st, "课程内容树摘要");
    push_char(&mut buf, '\n');
    push_blue_bold(&mut buf, st, course_title);
    push_char(&mut buf, '\n');
    push_str(&mut buf, summary);
    push_char(&mut buf, '\n');
    push_char(&mut buf, '\n');
    let ghost head = buf@;
    let mut i: usize = 0;
    while i < contents.len()
        invariant
            i <= contents.len(),
            buf@ == head + tree_node_lines(*st, contents@, i as nat),
        decreases contents.len() - i,
    {
        push_tree_node_line(&mut buf, st, &contents[i]);
        assert(buf@ =~= head + tree_node_lines(*st, contents@, (i + 1) as nat));
        i += 1;
    }
    assert(buf@ =~= tree_list_text(*st, course_title@, summary@, contents@));
    buf
}

/// One line of the readable tree lookup: `• [kind:match] title id`.
pub open spec fn tree_find_line(st: Styles, m: TreeFindRecord) -> Seq<char> {
    bullet(st) + seq!['['] + m.kind@ + seq![':'] + m.match_type@ + seq![']', ' '] + m.title@
        + seq![' '] + m.id@ + seq!['\n']
}

/// The lines of the first `n` matches.
pub open spec fn tree_find_lines(st: Styles, matches: Seq<TreeFindRecord>, n: nat) -> Seq<char>
    decreases n,
{
    if n == 0 || n > matches.len() {
        seq![]
    } else {
        tree_find_lines(st, matches, (n - 1) as nat) + tree_find_line(st, matches[n - 1])
    }
}

/// The readable tree lookup: the course title, `query: ...`, then one line per match.
pub open spec fn tree_find_text(
    st: Styles,
    course_title: Seq<char>,
    query: Seq<char>,
    matches: Seq<TreeFindRecord>,
) -> Seq<char> {
    blue_bold(st, course_title) + seq!['\n'] + "query: "@ + query + seq!['\n'] + tree_find_lines(
        st,
        matches,
        matches.len(),
    )
}

fn push_tree_find_line(buf: &mut String, st: &Styles, m: &TreeFindRecord)
    ensures
        final(buf)@ == old(buf)@ + tree_find_line(*st, *m),
{
    let ghost start = buf@;
    push_bullet(buf, st);
    push_char(buf, '[');
    push_str(buf, m.kind.as_str());
    push_char(buf, ':');
    push_str(buf, m.match_type.as_str());
    push_char(buf, ']');
    push_char(buf, ' ');
    push_str(buf, m.title.as_str());
    push_char(buf, ' ');
    push_str(buf, m.id.as_str());
    push_char(buf, '\n');
    assert(buf@ =~= start + tree_find_line(*st, *m));
}

/// Renders the readable tree lookup (see [`tree_find_text`]).
pub fn render_tree_find(
    st: &Styles,
    course_title: &str,
    query: &str,
    matches: &Vec<TreeFindRecord>,
) -> (r: String)
    ensures
        r@ == tree_find_text(*st, course_title@, query@, matches@),
{
    let mut buf = String::new();
    push_blue_bold(&mut buf, st, course_title);
    push_char(&mut buf, '\n');
    push_str(&mut buf, "query: ");
    push_str(&mut buf, query);
    push_char(&mut buf, '\n');
    let ghost head = buf@;
    let mut i: usize = 0;
    while i < matches.len()
        invariant
            i <= matches.len(),
            buf@ == head + tree_find_lines(*st, matches@, i as nat),
        decreases matches.len() - i,
    {
        push_tree_find_line(&mut buf, st, &matches[i]);
        assert(buf@ =~= head + tree_find_lines(*st, matches@, (i + 1) as nat));
        i += 1;
    }
    assert(buf@ =~= tree_find_text(*st, course_title@, query@, matches@));
    buf
}

/// One line of the readable kind listing: `• [kind] title id`.
pub open spec fn tree_kind_line(st: Styles, m: TreeNodeRecord) -> Seq<char> {
    bullet(st) + seq!['['] + m.kind@ + seq![']', ' '] + m.title@ + seq![' '] + m.id@ + seq!['\n']
}

/// The lines of the first `n` nodes.
pub open spec fn tree_kind_lines(st: Styles, nodes: Seq<TreeNodeRecord>, n: nat) -> Seq<char>
    decreases n,
{
    if n == 0 || n > nodes.len() {
        seq![]
    } else {
        tree_kind_lines(st, nodes, (n - 1) as nat) + tree_kind_line(st, nodes[n - 1])
    }
}

/// The readable kind listing: the course title, `kind: ...`, then one line per node.
pub open spec fn tree_kinds_text(
    st: Styles,
    course_title: Seq<char>,
    kind: Seq<char>,
    nodes: Seq<TreeNodeRecord>,
) -> Seq<char> {
    blue_bold(st, course_title) + seq!['\n'] + "kind: "@ + kind + seq!['\n'] + tree_kind_lines(
        st,
        nodes,
        nodes.len(),
    )
}

fn push_tree_kind_line(buf: &mut String, st: &Styles, m: &TreeNodeRecord)
    ensures
        final(buf)@ == old(buf)@ + tree_kind_line(*st, *m),
{
    let ghost start = buf@;
    push_bullet(buf, st);
    push_char(buf, '[');
    push_str(buf, m.kind.as_str());
    push_char(buf, ']');
    push_char(buf, ' ');
    push_str(buf, m.title.as_str());
    push_char(buf, ' ');
    push_str(buf, m.id.as_str());
    push_char(buf, '\n');
    assert(buf@ =~= start + tree_kind_line(*st, *m));
}

/// Renders the readable kind listing (see [`tree_kinds_text`]).
pub fn render_tree_kinds(
    st: &Styles,
    course_title: &str,
    kind: &str,
    nodes: &Vec<TreeNodeRecord>,
) -> (r: String)
    ensures
        r@ == tree_kinds_text(*st, course_title@, kind@, nodes@),
{
    let mut buf = String::new();
    push_blue_bold(&mut buf, st, course_title);
    push_char(&mut buf, '\n');
    push_str(&mut buf, "kind: ");
    push_str(&mut buf, kind);
    push_char(&mut buf, '\n');
    let ghost head = buf@;
    let mut i: usize = 0;
    while i < nodes.len()
        invariant
            i <= nodes.len(),
            buf@ == head + tree_kind_lines(*st, nodes@, i as nat),
        decreases nodes.len() - i,
    {
        push_tree_kind_line(&mut buf, st, &nodes[i]);
        assert(buf@ =~= head + tree_kind_lines(*st, nodes@, (i + 1) as nat));
        i += 1;
    }
    assert(buf@ =~= tree_kinds_text(*st, course_title@, kind@, nodes@));
    buf
}

/// The `tree` command.
pub struct CommandTree {
    pub force: bool,
    pub command: TreeCommands,
    /// JSON output.
    pub json: bool,
    pub otp_code: String,
}

/// The `tree` subcommands.
pub enum TreeCommands {
    List { course_index: usize },
    Find { course_index: usize, query: String },
    Kinds { course_index: usize, kind: String },
}

} // verus!
