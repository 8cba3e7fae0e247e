use vstd::prelude::*;

use crate::text::{
    char_is_alphanumeric, char_is_whitespace, chars_eq, chars_of, contains, is_alphanumeric,
    is_whitespace, lowercase_of, occurs_at, seq_contains, seq_starts_with, starts_with,
    string_from_chars, to_lowercase,
};

verus! {

// ---------------------------------------------------------------------------
// Whitespace-separated words
// ---------------------------------------------------------------------------

/// Length of the run of non-whitespace characters at the front of `s`.
pub open spec fn word_len(s: Seq<char>) -> nat
    decreases s.len(),
{
    if s.len() == 0 || char_is_whitespace(s[0]) {
        0
    } else {
        1 + word_len(s.drop_first())
    }
}

/// The words of `s`: its maximal runs of non-whitespace characters, in order.
pub open spec fn words(s: Seq<char>) -> Seq<Seq<char>>
    decreases s.len(),
{
    if s.len() == 0 {
        seq![]
    } else if char_is_whitespace(s[0]) {
        words(s.drop_first())
    } else {
        proof {
            lemma_word_len_bounds(s);
        }
        seq![s.take(word_len(s) as int)] + words(s.skip(word_len(s) as int))
    }
}

/// The words joined with one space between neighbours.
pub open spec fn join_spaced(ws: Seq<Seq<char>>) -> Seq<char>
    decreases ws.len(),
{
    if ws.len() == 0 {
        seq![]
    } else if ws.len() == 1 {
        ws[0]
    } else {
        ws[0] + seq![' '] + join_spaced(ws.drop_first())
    }
}

/// Lower-cased text with whitespace runs collapsed to one space and trimmed.
pub open spec fn folded_of(s: Seq<char>) -> Seq<char> {
    lowercase_of(join_spaced(words(s)))
}

/// The alphanumeric characters of `s`, in order.
pub open spec fn alnum_of(s: Seq<char>) -> Seq<char>
    decreases s.len(),
{
    if s.len() == 0 {
        seq![]
    } else if char_is_alphanumeric(s.last()) {
        alnum_of(s.drop_last()).push(s.last())
    } else {
        alnum_of(s.drop_last())
    }
}

/// Concatenation of two space-joined texts.
pub open spec fn cat_spaced(a: Seq<char>, b: Seq<char>) -> Seq<char> {
    if a.len() == 0 {
        b
    } else if b.len() == 0 {
        a
    } else {
        a + seq![' '] + b
    }
}

/// The leading word is no longer than the text, and non-empty when the
/// text starts with a non-blank character.
pub proof fn lemma_word_len_bounds(s: Seq<char>)
    ensures
        word_len(s) <= s.len(),
        s.len() > 0 && !char_is_whitespace(s[0]) ==> word_len(s) >= 1,
    decreases s.len(),
{
    if s.len() > 0 && !char_is_whitespace(s[0]) {
        lemma_word_len_bounds(s.drop_first());
    }
}

proof fn lemma_word_len_exact(s: Seq<char>, n: int)
    requires
        0 <= n <= s.len(),
        forall|j: int| 0 <= j < n ==> !char_is_whitespace(s[j]),
        n == s.len() || char_is_whitespace(s[n]),
    ensures
        word_len(s) == n,
    decreases n,
{
    if n > 0 {
        lemma_word_len_exact(s.drop_first(), n - 1);
    }
}

proof fn lemma_words_nonempty(s: Seq<char>)
    ensures
        forall|k: int| 0 <= k < words(s).len() ==> #[trigger] words(s)[k].len() > 0,
    decreases s.len(),
{
    if s.len() == 0 {
    } else if char_is_whitespace(s[0]) {
        lemma_words_nonempty(s.drop_first());
        assert(words(s) == words(s.drop_first()));
    } else {
        lemma_word_len_bounds(s);
        let n = word_len(s) as int;
        lemma_words_nonempty(s.skip(n));
        let w = words(s);
        assert forall|k: int| 0 <= k < w.len() implies #[trigger] w[k].len() > 0 by {
            if k > 0 {
                assert(w[k] == words(s.skip(n))[k - 1]);
            } else {
                assert(w[0] == s.take(n));
            }
        }
    }
}

/// A word: non-empty and free of whitespace.
pub open spec fn is_word(w: Seq<char>) -> bool {
    w.len() > 0 && forall|j: int| 0 <= j < w.len() ==> !char_is_whitespace(#[trigger] w[j])
}

proof fn lemma_word_prefix_clean(s: Seq<char>)
    ensures
        forall|j: int| 0 <= j < word_len(s) ==> !char_is_whitespace(#[trigger] s[j]),
    decreases s.len(),
{
    lemma_word_len_bounds(s);
    if s.len() > 0 && !char_is_whitespace(s[0]) {
        lemma_word_prefix_clean(s.drop_first());
        assert forall|j: int| 0 <= j < word_len(s) implies !char_is_whitespace(#[trigger] s[j]) by {
            if j > 0 {
                assert(s[j] == s.drop_first()[j - 1]);
            }
        }
    }
}

proof fn lemma_words_clean(s: Seq<char>)
    ensures
        forall|k: int| 0 <= k < words(s).len() ==> is_word(#[trigger] words(s)[k]),
    decreases s.len(),
{
    if s.len() == 0 {
    } else if char_is_whitespace(s[0]) {
        lemma_words_clean(s.drop_first());
        assert(words(s) == words(s.drop_first()));
    } else {
        lemma_word_len_bounds(s);
        lemma_word_prefix_clean(s);
        let n = word_len(s) as int;
        lemma_words_clean(s.skip(n));
        let w = words(s);
        assert forall|k: int| 0 <= k < w.len() implies is_word(#[trigger] w[k]) by {
            if k > 0 {
                assert(w[k] == words(s.skip(n))[k - 1]);
            } else {
                assert(w[0] == s.take(n));
                assert forall|j: int| 0 <= j < w[0].len() implies !char_is_whitespace(
                    #[trigger] w[0][j],
                ) by {
                    assert(w[0][j] == s[j]);
                }
            }
        }
    }
}

proof fn lemma_words_of_join(ws: Seq<Seq<char>>)
    requires
        forall|k: int| 0 <= k < ws.len() ==> is_word(#[trigger] ws[k]),
    ensures
        words(join_spaced(ws)) == ws,
    decreases ws.len(),
{
    if ws.len() == 0 {
        assert(words(join_spaced(ws)) =~= ws);
    } else {
        let w = ws[0];
        assert(is_word(w));
        let rest = ws.drop_first();
        assert forall|k: int| 0 <= k < rest.len() implies is_word(#[trigger] rest[k]) by {
            assert(rest[k] == ws[k + 1]);
        }
        lemma_words_of_join(rest);
        if ws.len() == 1 {
            let j = join_spaced(ws);
            assert(j == w);
            lemma_word_len_exact(w, w.len() as int);
            assert(w.take(w.len() as int) =~= w);
            assert(w.skip(w.len() as int) =~= Seq::<char>::empty());
            assert(words(Seq::<char>::empty()) =~= Seq::<Seq<char>>::empty());
            assert(words(j) =~= ws);
        } else {
            let tail = join_spaced(rest);
            let j = join_spaced(ws);
            assert(j == w + seq![' '] + tail);
            assert forall|i: int| 0 <= i < w.len() implies !char_is_whitespace(#[trigger] j[i]) by {
                assert(j[i] == w[i]);
            }
            assert(j[w.len() as int] == ' ');
            lemma_word_len_exact(j, w.len() as int);
            assert(j.take(w.len() as int) =~= w);
            let after = j.skip(w.len() as int);
            assert(after =~= seq![' '] + tail);
            assert(after.drop_first() =~= tail);
            assert(words(after) == words(tail));
            assert(words(j) == seq![w] + words(after));
            assert(words(j) =~= ws);
        }
    }
}

/// Squeezing whitespace is idempotent: the words of a squeezed text are the
/// words of the text, so squeezing it again gives it back unchanged.
pub proof fn lemma_squeeze_idempotent(s: Seq<char>)
    ensures
        words(join_spaced(words(s))) == words(s),
        join_spaced(words(join_spaced(words(s)))) == join_spaced(words(s)),
{
    lemma_words_clean(s);
    lemma_words_of_join(words(s));
}

proof fn lemma_join_nonempty(ws: Seq<Seq<char>>)
    requires
        ws.len() > 0,
        ws[0].len() > 0,
    ensures
        join_spaced(ws).len() > 0,
{
    if ws.len() > 1 {
        assert(join_spaced(ws) == ws[0] + seq![' '] + join_spaced(ws.drop_first()));
    }
}

proof fn lemma_join_cons(w: Seq<char>, rest: Seq<Seq<char>>)
    requires
        w.len() > 0,
        forall|k: int| 0 <= k < rest.len() ==> #[trigger] rest[k].len() > 0,
    ensures
        join_spaced(seq![w] + rest) == cat_spaced(w, join_spaced(rest)),
{
    let ws = seq![w] + rest;
    assert(ws.drop_first() =~= rest);
    if rest.len() > 0 {
        lemma_join_nonempty(rest);
    }
}

proof fn lemma_cat_assoc(a: Seq<char>, w: Seq<char>, b: Seq<char>)
    requires
        w.len() > 0,
    ensures
        cat_spaced(a, cat_spaced(w, b)) == cat_spaced(cat_spaced(a, w), b),
{
    if a.len() > 0 && b.len() > 0 {
        assert(a + seq![' '] + (w + seq![' '] + b) =~= (a + seq![' '] + w) + seq![' '] + b);
    }
}

/// Collapses every whitespace run to one space, dropping leading and trailing
/// whitespace (the words of `s` joined by single spaces).
pub fn squeeze_whitespace(s: &Vec<char>) -> (out: Vec<char>)
    ensures
        out@ == join_spaced(words(s@)),
{
    let mut out: Vec<char> = Vec::new();
    let mut i: usize = 0;
    assert(s@.skip(0) =~= s@);
    while i < s.len()
        invariant
            i <= s.len(),
            join_spaced(words(s@)) == cat_spaced(out@, join_spaced(words(s@.skip(i as int)))),
        decreases s.len() - i,
    {
        let ghost rest = s@.skip(i as int);
        if is_whitespace(s[i]) {
            assert(rest.drop_first() =~= s@.skip(i + 1));
            i += 1;
        } else {
            let mut k = i;
            while k < s.len() && !is_whitespace(s[k])
                invariant
                    i <= k <= s.len(),
                    forall|j: int| i <= j < k ==> !char_is_whitespace(s@[j]),
                decreases s.len() - k,
            {
                k += 1;
            }
            let n = k - i;
            proof {
                lemma_word_len_exact(rest, n as int);
                assert(rest.take(n as int) =~= s@.subrange(i as int, k as int));
                assert(rest.skip(n as int) =~= s@.skip(k as int));
                lemma_words_nonempty(s@.skip(k as int));
                lemma_join_cons(rest.take(n as int), words(s@.skip(k as int)));
                lemma_cat_assoc(out@, rest.take(n as int), join_spaced(words(s@.skip(k as int))));
            }
            let ghost before = out@;
            if out.len() > 0 {
                out.push(' ');
            }
            let mut m = i;
            while m < k
                invariant
                    i <= m <= k <= s.len(),
                    before.len() > 0 ==> out@ == before + seq![' '] + s@.subrange(i as int, m as int),
                    before.len() == 0 ==> out@ == s@.subrange(i as int, m as int),
                decreases k - m,
            {
                out.push(s[m]);
                assert(s@.subrange(i as int, m + 1) =~= s@.subrange(i as int, m as int).push(s@[m as int]));
                m += 1;
            }
            assert(out@ == cat_spaced(before, s@.subrange(i as int, k as int)));
            i = k;
        }
    }
    assert(s@.skip(s.len() as int) =~= Seq::<char>::empty());
    out
}

/// The alphanumeric characters of `s`, in order.
pub fn keep_alphanumeric(s: &Vec<char>) -> (out: Vec<char>)
    ensures
        out@ == alnum_of(s@),
{
    let mut out: Vec<char> = Vec::new();
    let mut i: usize = 0;
    while i < s.len()
        invariant
            i <= s.len(),
            out@ == alnum_of(s@.take(i as int)),
        decreases s.len() - i,
    {
        assert(s@.take(i + 1).drop_last() =~= s@.take(i as int));
        if is_alphanumeric(s[i]) {
            out.push(s[i]);
        }
        i += 1;
    }
    assert(s@.take(s.len() as int) =~= s@);
    out
}

// ---------------------------------------------------------------------------
// Query keys
// ---------------------------------------------------------------------------

/// A search query in two normalised forms: `folded` (lower-cased, whitespace
/// runs collapsed to one space, trimmed) and `compact` (only the alphanumeric
/// characters of `folded`).
#[derive(Clone, Debug, PartialEq, Eq)]
pub struct QueryKey {
    folded: String,
    compact: String,
}

/// Whether a key with the given forms is found in `hay`: its folded form
/// occurs in the folded haystack, or its (non-empty) compact form occurs in
/// the compact haystack. An empty key is found nowhere.
pub open spec fn key_found_in(folded: Seq<char>, compact: Seq<char>, hay: Seq<char>) -> bool {
    &&& folded.len() > 0
    &&& {
        ||| seq_contains(folded_of(hay), folded)
        ||| (compact.len() > 0 && seq_contains(alnum_of(folded_of(hay)), compact))
    }
}

impl QueryKey {
    /// The folded form.
    pub closed spec fn folded_view(self) -> Seq<char> {
        self.folded@
    }

    /// The compact form.
    pub closed spec fn compact_view(self) -> Seq<char> {
        self.compact@
    }

    /// Normalises `input`.
    pub fn new(input: &str) -> (key: Self)
        ensures
            key.folded_view() == folded_of(input@),
            key.compact_view() == alnum_of(folded_of(input@)),
    {
        let cs = chars_of(input);
        let squeezed = string_from_chars(&squeeze_whitespace(&cs));
        let folded = to_lowercase(squeezed.as_str());
        let compact = string_from_chars(&keep_alphanumeric(&chars_of(folded.as_str())));
        QueryKey { folded, compact }
    }

    /// The folded form.
    pub fn folded(&self) -> (r: &str)
        ensures
            r@ == self.folded_view(),
    {
        self.folded.as_str()
    }

    /// The compact form.
    pub fn compact(&self) -> (r: &str)
        ensures
            r@ == self.compact_view(),
    {
        self.compact.as_str()
    }

    /// Whether this key is found in `haystack` (see [`key_found_in`]).
    pub fn contains_in(&self, haystack: &str) -> (r: bool)
        ensures
            r == key_found_in(self.folded_view(), self.compact_view(), haystack@),
    {
        let folded = chars_of(self.folded.as_str());
        if folded.len() == 0 {
            return false;
        }
        let hay = QueryKey::new(haystack);
        let hay_folded = chars_of(hay.folded.as_str());
        if contains(&hay_folded, &folded) {
            return true;
        }
        let compact = chars_of(self.compact.as_str());
        if compact.len() == 0 {
            return false;
        }
        let hay_compact = chars_of(hay.compact());
        contains(&hay_compact, &compact)
    }
}

// ---------------------------------------------------------------------------
// Title matching
// ---------------------------------------------------------------------------

/// How well `title` (or `id`) matches `query`: a rank from 0 (best) to 8,
/// or `None` when it does not match at all.
pub open spec fn title_match_rank(title: Seq<char>, id: Seq<char>, query: Seq<char>) -> Option<u8> {
    let tf = folded_of(title);
    let qf = folded_of(query);
    let tc = alnum_of(tf);
    let qc = alnum_of(qf);
    if title == query {
        Some(0u8)
    } else if lowercase_of(title) == lowercase_of(query) {
        Some(1u8)
    } else if qf.len() == 0 {
        None
    } else if tf == qf {
        Some(2u8)
    } else if qc.len() > 0 && tc == qc {
        Some(3u8)
    } else if seq_starts_with(tf, qf) {
        Some(4u8)
    } else if qc.len() > 0 && seq_starts_with(tc, qc) {
        Some(5u8)
    } else if seq_contains(tf, qf) {
        Some(6u8)
    } else if qc.len() > 0 && seq_contains(tc, qc) {
        Some(7u8)
    } else if seq_contains(id, query) {
        Some(8u8)
    } else {
        None
    }
}

/// The name reported for each match rank.
pub open spec fn match_type_name(rank: u8) -> Seq<char> {
    if rank == 0 {
        "exact"@
    } else if rank == 1 {
        "exact_casefold"@
    } else if rank == 2 {
        "exact_normalized"@
    } else if rank == 3 {
        "exact_compact"@
    } else if rank == 4 {
        "prefix"@
    } else if rank == 5 {
        "prefix_compact"@
    } else if rank == 6 {
        "contains"@
    } else if rank == 7 {
        "contains_compact"@
    } else {
        "id_contains"@
    }
}

/// Classifies how `title` (or `id`) matches `query`; returns the match name
/// and its rank (lower is better).
pub fn title_match_type(title: &str, id: &str, query: &str) -> (r: Option<(&'static str, u8)>)
    ensures
        match r {
            Some((name, rank)) => title_match_rank(title@, id@, query@) == Some(rank) && name@
                == match_type_name(rank),
            None => title_match_rank(title@, id@, query@) is None,
        },
{
    let title_cs = chars_of(title);
    let query_cs = chars_of(query);
    if chars_eq(&title_cs, &query_cs) {
        return Some(("exact", 0));
    }
    let title_lc = chars_of(to_lowercase(title).as_str());
    let query_lc = chars_of(to_lowercase(query).as_str());
    if chars_eq(&title_lc, &query_lc) {
        return Some(("exact_casefold", 1));
    }
    let title_key = QueryKey::new(title);
    let query_key = QueryKey::new(query);
    let tf = chars_of(title_key.folded());
    let qf = chars_of(query_key.folded());
    let tc = chars_of(title_key.compact());
    let qc = chars_of(query_key.compact());
    if qf.len() == 0 {
        return None;
    }
    if chars_eq(&tf, &qf) {
        return Some(("exact_normalized", 2));
    }
    if qc.len() > 0 && chars_eq(&tc, &qc) {
        return Some(("exact_compact", 3));
    }
    if starts_with(&tf, &qf) {
        return Some(("prefix", 4));
    }
    if qc.len() > 0 && starts_with(&tc, &qc) {
        return Some(("prefix_compact", 5));
    }
    if contains(&tf, &qf) {
        return Some(("contains", 6));
    }
    if qc.len() > 0 && contains(&tc, &qc) {
        return Some(("contains_compact", 7));
    }
    let id_cs = chars_of(id);
    if contains(&id_cs, &query_cs) {
        return Some(("id_contains", 8));
    }
    None
}

// ---------------------------------------------------------------------------
// Laws
// ---------------------------------------------------------------------------

proof fn lemma_contains_self(s: Seq<char>)
    ensures
        seq_contains(s, s),
{
    assert(s.subrange(0, s.len() as int) =~= s);
    assert(occurs_at(s, s, 0));
}

proof fn lemma_prefix_contained(hay: Seq<char>, needle: Seq<char>)
    requires
        seq_starts_with(hay, needle),
    ensures
        seq_contains(hay, needle),
{
    assert(occurs_at(hay, needle, 0));
}

/// A title always matches itself exactly, whatever its id.
pub proof fn lemma_title_matches_itself(title: Seq<char>, id: Seq<char>)
    ensures
        title_match_rank(title, id, title) == Some(0u8),
        match_type_name(0) == "exact"@,
{
}

/// A key made from a text with at least one non-blank character is found in
/// that very text.
pub proof fn lemma_key_found_in_own_text(text: Seq<char>)
    requires
        folded_of(text).len() > 0,
    ensures
        key_found_in(folded_of(text), alnum_of(folded_of(text)), text),
{
    lemma_contains_self(folded_of(text));
}

/// Every normalised title match (ranks 2 to 7) is also a hit for the
/// normalised substring search with a key made from the same query.
pub proof fn lemma_normalized_match_is_found(title: Seq<char>, id: Seq<char>, query: Seq<char>)
    requires
        title_match_rank(title, id, query) matches Some(rank) && 2 <= rank <= 7,
    ensures
        key_found_in(folded_of(query), alnum_of(folded_of(query)), title),
{
    let tf = folded_of(title);
    let qf = folded_of(query);
    let tc = alnum_of(tf);
    let qc = alnum_of(qf);
    if tf == qf {
        lemma_contains_self(tf);
    } else if qc.len() > 0 && tc == qc {
        lemma_contains_self(tc);
    } else if seq_starts_with(tf, qf) {
        lemma_prefix_contained(tf, qf);
    } else if qc.len() > 0 && seq_starts_with(tc, qc) {
        lemma_prefix_contained(tc, qc);
    }
}

/// Every rank that title matching reports has a name, and ranks never exceed 8.
pub proof fn lemma_rank_bounded(title: Seq<char>, id: Seq<char>, query: Seq<char>)
    ensures
        title_match_rank(title, id, query) matches Some(rank) ==> rank <= 8,
{
}

/// How a title is ranked against a query, case by case, in terms of the
/// normalised forms (`tf`, `qf` the folded title and query, `tc`, `qc` their
/// alphanumeric compact forms). Each case applies only when no earlier one
/// does: identical text ranks 0, equal lower case 1, a query with no words
/// matches nothing, equal folded forms rank 2, equal non-empty compact forms
/// 3, a folded prefix 4, a compact prefix 5, folded containment 6, compact
/// containment 7, the raw query inside the id 8, and otherwise no match.
pub proof fn lemma_match_ranks(title: Seq<char>, id: Seq<char>, query: Seq<char>)
    ensures
        ({
            let tf = folded_of(title);
            let qf = folded_of(query);
            let tc = alnum_of(tf);
            let qc = alnum_of(qf);
            let r = title_match_rank(title, id, query);
            let c0 = title == query;
            let c1 = lowercase_of(title) == lowercase_of(query);
            let c2 = tf == qf;
            let c3 = qc.len() > 0 && tc == qc;
            let c4 = seq_starts_with(tf, qf);
            let c5 = qc.len() > 0 && seq_starts_with(tc, qc);
            let c6 = seq_contains(tf, qf);
            let c7 = qc.len() > 0 && seq_contains(tc, qc);
            let c8 = seq_contains(id, query);
            let pre = !c0 && !c1 && qf.len() > 0;
            &&& c0 ==> r == Some(0u8)
            &&& !c0 && c1 ==> r == Some(1u8)
            &&& !c0 && !c1 && qf.len() == 0 ==> r is None
            &&& pre && c2 ==> r == Some(2u8)
            &&& pre && !c2 && c3 ==> r == Some(3u8)
            &&& pre && !c2 && !c3 && c4 ==> r == Some(4u8)
            &&& pre && !c2 && !c3 && !c4 && c5 ==> r == Some(5u8)
            &&& pre && !c2 && !c3 && !c4 && !c5 && c6 ==> r == Some(6u8)
            &&& pre && !c2 && !c3 && !c4 && !c5 && !c6 && c7 ==> r == Some(7u8)
            &&& pre && !c2 && !c3 && !c4 && !c5 && !c6 && !c7 && c8 ==> r == Some(8u8)
            &&& pre && !c2 && !c3 && !c4 && !c5 && !c6 && !c7 && !c8 ==> r is None
        }),
{
}

/// A title whose compact form equals the query's (non-empty) compact form,
/// while the folded forms differ and neither exact nor case-folded equality
/// holds, is an `exact_compact` match, ranked before every prefix or
/// containment match.
pub proof fn lemma_compact_equal_is_exact_compact(title: Seq<char>, id: Seq<char>, query: Seq<char>)
    requires
        title != query,
        lowercase_of(title) != lowercase_of(query),
        folded_of(query).len() > 0,
        folded_of(title) != folded_of(query),
        alnum_of(folded_of(query)).len() > 0,
        alnum_of(folded_of(title)) == alnum_of(folded_of(query)),
    ensures
        title_match_rank(title, id, query) == Some(3u8),
        match_type_name(3u8) == "exact_compact"@,
{
    lemma_match_ranks(title, id, query);
}

} // verus!
