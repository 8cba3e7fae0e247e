use vstd::prelude::*;

verus! {

/// A total preorder on records, decided by an executable comparison.
pub trait SortKey: Sized {
    /// `self` may come before `other`.
    spec fn key_le(self, other: Self) -> bool;

    /// Decides [`SortKey::key_le`].
    fn le(&self, other: &Self) -> (r: bool)
        ensures
            r == self.key_le(*other),
    ;

    proof fn lemma_total(a: Self, b: Self)
        ensures
            a.key_le(b) || b.key_le(a),
    ;

    proof fn lemma_trans(a: Self, b: Self, c: Self)
        requires
            a.key_le(b),
            b.key_le(c),
        ensures
            a.key_le(c),
    ;
}

/// `s` is in non-decreasing key order.
pub open spec fn sorted_by_key<T: SortKey>(s: Seq<T>) -> bool {
    forall|i: int, j: int| 0 <= i < j < s.len() ==> (#[trigger] s[i]).key_le(#[trigger] s[j])
}

/// `a` and `b` have equal keys.
pub open spec fn same_key<T: SortKey>(a: T, b: T) -> bool {
    a.key_le(b) && b.key_le(a)
}

/// The elements of `s` whose key equals that of `x`, in their order in `s`.
pub open spec fn key_class<T: SortKey>(s: Seq<T>, x: T) -> Seq<T> {
    s.filter(|y: T| same_key(y, x))
}

/// `out` holds the elements of `input` in key order, and elements with equal
/// keys keep their relative order (a stable sort).
pub open spec fn stably_sorted<T: SortKey>(input: Seq<T>, out: Seq<T>) -> bool {
    &&& sorted_by_key(out)
    &&& out.to_multiset() == input.to_multiset()
    &&& forall|x: T| #[trigger] key_class(out, x) == key_class(input, x)
}

proof fn lemma_insert_keeps_classes<T: SortKey>(out: Seq<T>, p: int, e: T, x: T)
    requires
        0 <= p <= out.len(),
        forall|q: int| p <= q < out.len() ==> !(#[trigger] out[q]).key_le(e),
    ensures
        key_class(out.insert(p, e), x) == key_class(out.push(e), x),
{
    let pred = |y: T| same_key(y, x);
    let a = out.subrange(0, p);
    let b = out.subrange(p, out.len() as int);
    assert(out.insert(p, e) =~= a + (seq![e] + b));
    assert(out =~= a + b);
    Seq::filter_distributes_over_add(a, seq![e] + b, pred);
    Seq::filter_distributes_over_add(seq![e], b, pred);
    Seq::filter_distributes_over_add(a, b, pred);
    out.lemma_filter_push(e, pred);
    if same_key(e, x) {
        assert forall|q: int| 0 <= q < b.len() implies !pred(#[trigger] b[q]) by {
            if pred(b[q]) {
                T::lemma_trans(b[q], x, e);
            }
        }
        b.lemma_all_neg_filter_empty(pred);
        assert(b.filter(pred) =~= Seq::<T>::empty());
        reveal_with_fuel(Seq::filter, 2);
        assert(seq![e].filter(pred) =~= seq![e]);
        assert(key_class(out.insert(p, e), x) =~= a.filter(pred) + (seq![e] + b.filter(pred)));
        assert(key_class(out.push(e), x) =~= (a.filter(pred) + b.filter(pred)).push(e));
    } else {
        reveal_with_fuel(Seq::filter, 2);
        assert(seq![e].filter(pred) =~= Seq::<T>::empty());
        assert(key_class(out.insert(p, e), x) =~= a.filter(pred) + b.filter(pred));
    }
}

/// Sorts `v` by key, keeping the relative order of elements with equal keys.
pub fn stable_sort<T: SortKey>(v: &mut Vec<T>)
    ensures
        stably_sorted(old(v)@, final(v)@),
{
    let ghost input = v@;
    let mut rest: Vec<T> = Vec::new();
    std::mem::swap(&mut rest, v);
    let mut out: Vec<T> = Vec::new();
    let ghost mut done: Seq<T> = Seq::empty();
    proof {
        assert(input =~= done + rest@);
        assert forall|x: T| #[trigger] key_class(out@, x) == key_class(done, x) by {
            assert(out@ =~= done);
        }
    }
    while rest.len() > 0
        invariant
            input == done + rest@,
            sorted_by_key(out@),
            out@.to_multiset() == done.to_multiset(),
            forall|x: T| #[trigger] key_class(out@, x) == key_class(done, x),
        decreases rest.len(),
    {
        let e = rest.remove(0);
        let mut p: usize = 0;
        while p < out.len() && out[p].le(&e)
            invariant
                p <= out.len(),
                forall|j: int| 0 <= j < p ==> (#[trigger] out@[j]).key_le(e),
            decreases out.len() - p,
        {
            p += 1;
        }
        let ghost old_out = out@;
        proof {
            assert forall|q: int| p <= q < old_out.len() implies !(#[trigger] old_out[q]).key_le(
                e,
            ) by {
                if q > p && old_out[q].key_le(e) {
                    T::lemma_trans(old_out[p as int], old_out[q], e);
                }
            }
            assert forall|x: T| #[trigger] key_class(old_out.insert(p as int, e), x) == key_class(
                done.push(e),
                x,
            ) by {
                lemma_insert_keeps_classes(old_out, p as int, e, x);
                assert(key_class(old_out, x) == key_class(done, x));
                old_out.lemma_filter_push(e, |y: T| same_key(y, x));
                done.lemma_filter_push(e, |y: T| same_key(y, x));
            }
            vstd::seq_lib::to_multiset_insert(old_out, p as int, e);
            vstd::seq_lib::to_multiset_build(done, e);
        }
        out.insert(p, e);
        proof {
            old_out.insert_ensures(p as int, e);
            assert forall|i: int, j: int| 0 <= i < j < out@.len() implies (#[trigger] out@[i]).key_le(
                #[trigger] out@[j],
            ) by {
                if j < p {
                } else if j == p {
                } else if i < p {
                    T::lemma_total(e, old_out[j - 1]);
                    T::lemma_trans(out@[i], e, out@[j]);
                } else if i == p {
                    T::lemma_total(e, old_out[j - 1]);
                } else {
                }
            }
            assert(input =~= done.push(e) + rest@);
            done = done.push(e);
        }
    }
    proof {
        assert(done =~= input);
    }
    *v = out;
}

/// The second components of a list of ranked pairs, in order.
pub open spec fn strip_ranks<R>(s: Seq<(u8, R)>) -> Seq<R> {
    Seq::new(s.len(), |i: int| s[i].1)
}

/// Drops the ranks of a list of ranked pairs.
pub fn drop_ranks<R>(v: Vec<(u8, R)>) -> (out: Vec<R>)
    ensures
        out@ == strip_ranks(v@),
{
    let ghost orig = v@;
    let mut v = v;
    let mut out: Vec<R> = Vec::new();
    let ghost mut i: int = 0;
    while v.len() > 0
        invariant
            0 <= i <= orig.len(),
            v@ == orig.subrange(i, orig.len() as int),
            out@ == strip_ranks(orig.subrange(0, i)),
        decreases v.len(),
    {
        let (_, r) = v.remove(0);
        proof {
            assert(strip_ranks(orig.subrange(0, i + 1)) =~= strip_ranks(orig.subrange(0, i)).push(r));
            i = i + 1;
            assert(v@ =~= orig.subrange(i, orig.len() as int));
        }
        out.push(r);
    }
    assert(orig.subrange(0, i) =~= orig);
    out
}

/// Two stable sorts of the same list agree: the result of a stable sort is
/// determined by its input.
pub proof fn lemma_stable_sort_unique<T: SortKey>(input: Seq<T>, a: Seq<T>, b: Seq<T>)
    requires
        stably_sorted(input, a),
        stably_sorted(input, b),
    ensures
        a == b,
{
    lemma_stable_sort_unique_aux(a, b);
}

proof fn lemma_class_push<T: SortKey>(s: Seq<T>, e: T, x: T)
    ensures
        key_class(s.push(e), x) == if same_key(e, x) {
            key_class(s, x).push(e)
        } else {
            key_class(s, x)
        },
{
    s.lemma_filter_push(e, |y: T| same_key(y, x));
}

proof fn lemma_class_members<T: SortKey>(s: Seq<T>, x: T, k: int)
    requires
        0 <= k < key_class(s, x).len(),
    ensures
        exists|i: int| 0 <= i < s.len() && s[i] == key_class(s, x)[k],
        same_key(key_class(s, x)[k], x),
    decreases s.len(),
{
    if s.len() == 0 {
        reveal(Seq::filter);
    } else {
        let e = s.last();
        let t = s.drop_last();
        assert(s =~= t.push(e));
        lemma_class_push(t, e, x);
        if same_key(e, x) && k == key_class(s, x).len() - 1 {
            assert(s[s.len() - 1] == key_class(s, x)[k]);
        } else {
            lemma_class_members(t, x, k);
            let i = choose|i: int| 0 <= i < t.len() && t[i] == key_class(t, x)[k];
            assert(s[i] == key_class(s, x)[k]);
        }
    }
}

proof fn lemma_class_empty<T: SortKey>(x: T)
    ensures
        key_class(Seq::<T>::empty(), x) == Seq::<T>::empty(),
{
    reveal(Seq::filter);
}

proof fn lemma_stable_sort_unique_aux<T: SortKey>(a: Seq<T>, b: Seq<T>)
    requires
        sorted_by_key(a),
        sorted_by_key(b),
        forall|x: T| #[trigger] key_class(a, x) == key_class(b, x),
    ensures
        a == b,
    decreases a.len() + b.len(),
{
    if a.len() == 0 && b.len() == 0 {
        assert(a =~= b);
    } else if a.len() == 0 || b.len() == 0 {
        let (s, o) = if a.len() == 0 {
            (b, a)
        } else {
            (a, b)
        };
        let y = s.last();
        T::lemma_total(y, y);
        assert(s =~= s.drop_last().push(y));
        lemma_class_push(s.drop_last(), y, y);
        assert(o =~= Seq::<T>::empty());
        lemma_class_empty(y);
        assert(key_class(a, y) == key_class(b, y));
        assert(key_class(s, y).len() > 0);
    } else {
        let x = a.last();
        let y = b.last();
        let a1 = a.drop_last();
        let b1 = b.drop_last();
        assert(a =~= a1.push(x));
        assert(b =~= b1.push(y));
        T::lemma_total(x, x);
        T::lemma_total(y, y);
        lemma_class_push(a1, x, x);
        lemma_class_push(b1, y, y);
        // x has a class member in b, which y bounds from above
        assert(key_class(b, x) == key_class(a, x));
        let kx = key_class(b, x).len() - 1;
        lemma_class_members(b, x, kx);
        let i = choose|i: int| 0 <= i < b.len() && b[i] == key_class(b, x)[kx];
        if i < b.len() - 1 {
            assert(b[i].key_le(b[b.len() - 1]));
        }
        T::lemma_trans(x, b[i], y);
        // and symmetrically y has a class member in a, which x bounds
        assert(key_class(a, y) == key_class(b, y));
        let ky = key_class(a, y).len() - 1;
        lemma_class_members(a, y, ky);
        let j = choose|j: int| 0 <= j < a.len() && a[j] == key_class(a, y)[ky];
        if j < a.len() - 1 {
            assert(a[j].key_le(a[a.len() - 1]));
        }
        T::lemma_trans(y, a[j], x);
        lemma_class_push(b1, y, x);
        assert(key_class(a, x).last() == x);
        assert(key_class(b, x).last() == y);
        assert(x == y);
        assert forall|z: T| #[trigger] key_class(a1, z) == key_class(b1, z) by {
            lemma_class_push(a1, x, z);
            lemma_class_push(b1, y, z);
            assert(key_class(a, z) == key_class(b, z));
            if same_key(x, z) {
                assert(key_class(a1, z) =~= key_class(a, z).drop_last());
                assert(key_class(b1, z) =~= key_class(b, z).drop_last());
            }
        }
        lemma_stable_sort_unique_aux(a1, b1);
    }
}

/// A list already in key order is its own stable sort.
pub proof fn lemma_sorted_is_fixed_point<T: SortKey>(s: Seq<T>)
    requires
        sorted_by_key(s),
    ensures
        stably_sorted(s, s),
{
}

/// Sorting is idempotent: stably sorting a stably sorted list gives it back.
pub proof fn lemma_sort_idempotent<T: SortKey>(input: Seq<T>, once: Seq<T>, twice: Seq<T>)
    requires
        stably_sorted(input, once),
        stably_sorted(once, twice),
    ensures
        twice == once,
{
    lemma_sorted_is_fixed_point(once);
    lemma_stable_sort_unique(once, twice, once);
}

} // verus!
