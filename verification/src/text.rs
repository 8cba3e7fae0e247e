use vstd::prelude::*;

verus! {

// ---------------------------------------------------------------------------
// Character classes and case mapping
// ---------------------------------------------------------------------------

/// Whether a character has the Unicode `White_Space` property: the ASCII
/// tab, line feed, vertical tab, form feed, carriage return and space, and
/// U+0085, U+00A0, U+1680, U+2000 to U+200A, U+2028, U+2029, U+202F,
/// U+205F and U+3000.
pub open spec fn char_is_whitespace(c: char) -> bool {
    let n = c as u32;
    ||| 0x09 <= n <= 0x0D
    ||| n == 0x20
    ||| n == 0x85
    ||| n == 0xA0
    ||| n == 0x1680
    ||| 0x2000 <= n <= 0x200A
    ||| n == 0x2028
    ||| n == 0x2029
    ||| n == 0x202F
    ||| n == 0x205F
    ||| n == 0x3000
}

/// Whether a character is alphabetic or numeric in the Unicode sense.
pub uninterp spec fn char_is_alphanumeric(c: char) -> bool;

/// The full Unicode lower-case mapping of a string.
pub uninterp spec fn lowercase_of(s: Seq<char>) -> Seq<char>;

/// Whether a character is whitespace (see [`char_is_whitespace`]), as
/// `char::is_whitespace` decides it.
pub fn is_whitespace(c: char) -> (r: bool)
    ensures
        r == char_is_whitespace(c),
{
    let n = c as u32;
    (0x09 <= n && n <= 0x0D) || n == 0x20 || n == 0x85 || n == 0xA0 || n == 0x1680 || (0x2000
        <= n && n <= 0x200A) || n == 0x2028 || n == 0x2029 || n == 0x202F || n == 0x205F || n
        == 0x3000
}

/// `char::is_alphanumeric`: a fixed Unicode property of the character.
#[verifier::external_body]
pub(crate) fn is_alphanumeric(c: char) -> (r: bool)
    ensures
        r == char_is_alphanumeric(c),
{
    c.is_alphanumeric()
}

/// `str::to_lowercase`: the result depends on the input string alone.
#[verifier::external_body]
pub(crate) fn to_lowercase(s: &str) -> (r: String)
    ensures
        r@ == lowercase_of(s@),
{
    s.to_lowercase()
}

/// `String::push`: appends one character at the end.
#[verifier::external_body]
pub(crate) fn push_char(s: &mut String, c: char)
    ensures
        final(s)@ == old(s)@.push(c),
{
    s.push(c);
}

// ---------------------------------------------------------------------------
// Conversions between strings and character vectors
// ---------------------------------------------------------------------------

/// The characters of a string slice, in order.
pub fn chars_of(s: &str) -> (out: Vec<char>)
    ensures
        out@ == s@,
{
    let mut out: Vec<char> = Vec::new();
    for c in it: s.chars()
        invariant
            out@ == it.seq().take(it.index() as int),
    {
        out.push(c);
    }
    out
}

/// Appends the characters of `cs` to `s`.
pub fn push_chars(s: &mut String, cs: &Vec<char>)
    ensures
        final(s)@ == old(s)@ + cs@,
{
    let ghost start = s@;
    let mut i: usize = 0;
    while i < cs.len()
        invariant
            i <= cs.len(),
            s@ == start + cs@.take(i as int),
        decreases cs.len() - i,
    {
        push_char(s, cs[i]);
        assert(cs@.take(i + 1) =~= cs@.take(i as int).push(cs@[i as int]));
        i += 1;
    }
    assert(cs@.take(cs.len() as int) =~= cs@);
}

/// A string made of the given characters.
pub fn string_from_chars(cs: &Vec<char>) -> (s: String)
    ensures
        s@ == cs@,
{
    let mut s = String::new();
    push_chars(&mut s, cs);
    assert(s@ =~= cs@);
    s
}

/// Appends a string slice.
pub fn push_str(s: &mut String, t: &str)
    ensures
        final(s)@ == old(s)@ + t@,
{
    s.append(t);
}

// ---------------------------------------------------------------------------
// Searching in character sequences
// ---------------------------------------------------------------------------

/// `needle` occurs in `hay` starting at index `i`.
pub open spec fn occurs_at(hay: Seq<char>, needle: Seq<char>, i: int) -> bool {
    &&& 0 <= i
    &&& i + needle.len() <= hay.len()
    &&& hay.subrange(i, i + needle.len()) == needle
}

/// `needle` occurs somewhere in `hay` (the empty needle occurs everywhere).
pub open spec fn seq_contains(hay: Seq<char>, needle: Seq<char>) -> bool {
    exists|i: int| occurs_at(hay, needle, i)
}

/// `hay` starts with `needle`.
pub open spec fn seq_starts_with(hay: Seq<char>, needle: Seq<char>) -> bool {
    occurs_at(hay, needle, 0)
}

/// `hay` contains the character `c`.
pub open spec fn has_char(hay: Seq<char>, c: char) -> bool {
    exists|i: int| 0 <= i < hay.len() && hay[i] == c
}

/// Whether two character vectors are equal.
pub fn chars_eq(a: &Vec<char>, b: &Vec<char>) -> (r: bool)
    ensures
        r == (a@ == b@),
{
    if a.len() != b.len() {
        return false;
    }
    let mut i: usize = 0;
    while i < a.len()
        invariant
            a.len() == b.len(),
            i <= a.len(),
            forall|j: int| 0 <= j < i ==> a@[j] == b@[j],
        decreases a.len() - i,
    {
        if a[i] != b[i] {
            return false;
        }
        i += 1;
    }
    assert(a@ =~= b@);
    true
}

/// Whether two strings hold the same text.
pub fn same_text(a: &str, b: &str) -> (r: bool)
    ensures
        r == (a@ == b@),
{
    chars_eq(&chars_of(a), &chars_of(b))
}

/// Whether `needle` occurs in `hay` at position `start`.
pub fn matches_at(hay: &Vec<char>, needle: &Vec<char>, start: usize) -> (r: bool)
    ensures
        r == occurs_at(hay@, needle@, start as int),
{
    if start > hay.len() || needle.len() > hay.len() - start {
        return false;
    }
    let mut k: usize = 0;
    while k < needle.len()
        invariant
            start + needle.len() <= hay.len(),
            k <= needle.len(),
            forall|j: int| 0 <= j < k ==> hay@[start + j] == needle@[j],
        decreases needle.len() - k,
    {
        if hay[start + k] != needle[k] {
            assert(hay@.subrange(start as int, start + needle.len())[k as int] != needle@[k as int]);
            return false;
        }
        k += 1;
    }
    assert(hay@.subrange(start as int, start + needle.len()) =~= needle@);
    true
}

/// The first position at or after `from` where `needle` occurs in `hay`.
pub fn find_from(hay: &Vec<char>, needle: &Vec<char>, from: usize) -> (r: Option<usize>)
    ensures
        match r {
            Some(i) => from <= i && occurs_at(hay@, needle@, i as int) && forall|j: int|
                from <= j < i ==> !occurs_at(hay@, needle@, j),
            None => forall|j: int| from <= j ==> !occurs_at(hay@, needle@, j),
        },
{
    if needle.len() > hay.len() {
        return None;
    }
    let last = hay.len() - needle.len();
    let mut i = from;
    while i <= last
        invariant
            last + needle.len() == hay.len(),
            from <= i,
            forall|j: int| from <= j < i ==> !occurs_at(hay@, needle@, j),
        decreases last + 1 - i,
    {
        if matches_at(hay, needle, i) {
            return Some(i);
        }
        if i == last {
            return None;
        }
        i += 1;
    }
    None
}

/// The first position where `needle` occurs in `hay`.
pub fn find(hay: &Vec<char>, needle: &Vec<char>) -> (r: Option<usize>)
    ensures
        match r {
            Some(i) => occurs_at(hay@, needle@, i as int) && forall|j: int|
                0 <= j < i ==> !occurs_at(hay@, needle@, j),
            None => !seq_contains(hay@, needle@),
        },
{
    find_from(hay, needle, 0)
}

/// Whether `needle` occurs somewhere in `hay`.
pub fn contains(hay: &Vec<char>, needle: &Vec<char>) -> (r: bool)
    ensures
        r == seq_contains(hay@, needle@),
{
    match find(hay, needle) {
        Some(_) => true,
        None => false,
    }
}

/// Whether `hay` starts with `needle`.
pub fn starts_with(hay: &Vec<char>, needle: &Vec<char>) -> (r: bool)
    ensures
        r == seq_starts_with(hay@, needle@),
{
    matches_at(hay, needle, 0)
}

/// The first position of the character `c` in `hay`.
pub fn find_char(hay: &Vec<char>, c: char) -> (r: Option<usize>)
    ensures
        match r {
            Some(i) => i < hay@.len() && hay@[i as int] == c && forall|j: int|
                0 <= j < i ==> hay@[j] != c,
            None => !has_char(hay@, c),
        },
{
    let mut i: usize = 0;
    while i < hay.len()
        invariant
            i <= hay.len(),
            forall|j: int| 0 <= j < i ==> hay@[j] != c,
        decreases hay.len() - i,
    {
        if hay[i] == c {
            return Some(i);
        }
        i += 1;
    }
    None
}

/// The characters `cs[from..to]`.
pub fn slice_chars(cs: &Vec<char>, from: usize, to: usize) -> (out: Vec<char>)
    requires
        from <= to <= cs.len(),
    ensures
        out@ == cs@.subrange(from as int, to as int),
{
    let mut out: Vec<char> = Vec::new();
    let mut i = from;
    while i < to
        invariant
            from <= i <= to <= cs.len(),
            out@ == cs@.subrange(from as int, i as int),
        decreases to - i,
    {
        out.push(cs[i]);
        assert(cs@.subrange(from as int, i + 1) =~= cs@.subrange(from as int, i as int).push(
            cs@[i as int],
        ));
        i += 1;
    }
    out
}

// ---------------------------------------------------------------------------
// Ordering of texts (code-point lexicographic, the order of `Ord` on `str`)
// ---------------------------------------------------------------------------

/// `a` sorts strictly before `b`.
pub open spec fn text_lt(a: Seq<char>, b: Seq<char>) -> bool
    decreases a.len(),
{
    if a.len() == 0 {
        b.len() > 0
    } else if b.len() == 0 {
        false
    } else if a[0] != b[0] {
        a[0] < b[0]
    } else {
        text_lt(a.drop_first(), b.drop_first())
    }
}

/// Three-way comparison of texts: -1, 0 or 1.
pub open spec fn text_order(a: Seq<char>, b: Seq<char>) -> int {
    if text_lt(a, b) {
        -1
    } else if a == b {
        0
    } else {
        1
    }
}

/// Three-way comparison of integers: -1, 0 or 1.
pub open spec fn num_order(a: int, b: int) -> int {
    if a < b {
        -1
    } else if a == b {
        0
    } else {
        1
    }
}

/// Three-way comparison of optional texts, absent before present.
pub open spec fn opt_text_order(a: Option<Seq<char>>, b: Option<Seq<char>>) -> int {
    match (a, b) {
        (None, None) => 0,
        (None, Some(_)) => -1,
        (Some(_), None) => 1,
        (Some(x), Some(y)) => text_order(x, y),
    }
}

/// Lexicographic combination: the first comparison decides unless it is a tie.
pub open spec fn then_order(first: int, next: int) -> int {
    if first != 0 {
        first
    } else {
        next
    }
}

proof fn lemma_text_lt_irreflexive(a: Seq<char>)
    ensures
        !text_lt(a, a),
    decreases a.len(),
{
    if a.len() > 0 {
        lemma_text_lt_irreflexive(a.drop_first());
    }
}

proof fn lemma_text_lt_asym_total(a: Seq<char>, b: Seq<char>)
    ensures
        text_lt(a, b) ==> !text_lt(b, a),
        a != b ==> text_lt(a, b) || text_lt(b, a),
    decreases a.len(),
{
    if a.len() > 0 && b.len() > 0 {
        if a[0] == b[0] {
            lemma_text_lt_asym_total(a.drop_first(), b.drop_first());
            if a.drop_first() == b.drop_first() {
                assert(a =~= seq![a[0]] + a.drop_first());
                assert(b =~= seq![b[0]] + b.drop_first());
            }
        } else {
        }
    } else if a.len() == 0 && b.len() == 0 {
        assert(a =~= b);
    }
}

proof fn lemma_text_lt_trans(a: Seq<char>, b: Seq<char>, c: Seq<char>)
    requires
        text_lt(a, b),
        text_lt(b, c),
    ensures
        text_lt(a, c),
    decreases a.len(),
{
    if a.len() > 0 && b.len() > 0 && c.len() > 0 {
        if a[0] == b[0] && b[0] == c[0] {
            lemma_text_lt_trans(a.drop_first(), b.drop_first(), c.drop_first());
        } else {
        }
    }
}

/// The pairwise facts that make `text_order` a three-way comparison on the
/// texts `a`, `b`, `c`: antisymmetry, zero exactly on equal texts, and
/// transitivity from `a` through `b` to `c`.
pub open spec fn order_facts(o_ab: int, o_ba: int, o_bc: int, o_cb: int, o_ac: int, o_ca: int, ab_eq: bool, bc_eq: bool, ac_eq: bool) -> bool {
    &&& -1 <= o_ab <= 1 && -1 <= o_bc <= 1 && -1 <= o_ac <= 1
    &&& o_ab == -o_ba && o_bc == -o_cb && o_ac == -o_ca
    &&& (o_ab == 0 <==> ab_eq) && (o_bc == 0 <==> bc_eq) && (o_ac == 0 <==> ac_eq)
    &&& (o_ab <= 0 && o_bc <= 0 ==> o_ac <= 0)
    &&& (o_ab < 0 && o_bc <= 0 ==> o_ac < 0)
    &&& (o_ab <= 0 && o_bc < 0 ==> o_ac < 0)
}

proof fn lemma_text_pair(x: Seq<char>, y: Seq<char>)
    ensures
        -1 <= text_order(x, y) <= 1,
        text_order(x, y) == -text_order(y, x),
        text_order(x, y) == 0 <==> x == y,
{
    lemma_text_lt_asym_total(x, y);
    lemma_text_lt_irreflexive(x);
}

/// `text_order` is a three-way comparison on `a`, `b`, `c`.
pub proof fn lemma_text_order_laws(a: Seq<char>, b: Seq<char>, c: Seq<char>)
    ensures
        order_facts(
            text_order(a, b),
            text_order(b, a),
            text_order(b, c),
            text_order(c, b),
            text_order(a, c),
            text_order(c, a),
            a == b,
            b == c,
            a == c,
        ),
{
    lemma_text_pair(a, b);
    lemma_text_pair(b, c);
    lemma_text_pair(a, c);
    if text_lt(a, b) && text_lt(b, c) {
        lemma_text_lt_trans(a, b, c);
    }
}

/// `opt_text_order` is a three-way comparison on `a`, `b`, `c`.
pub proof fn lemma_opt_text_order_laws(
    a: Option<Seq<char>>,
    b: Option<Seq<char>>,
    c: Option<Seq<char>>,
)
    ensures
        order_facts(
            opt_text_order(a, b),
            opt_text_order(b, a),
            opt_text_order(b, c),
            opt_text_order(c, b),
            opt_text_order(a, c),
            opt_text_order(c, a),
            a == b,
            b == c,
            a == c,
        ),
{
    if a is Some && b is Some {
        lemma_text_pair(a->0, b->0);
    }
    if b is Some && c is Some {
        lemma_text_pair(b->0, c->0);
    }
    if a is Some && c is Some {
        lemma_text_pair(a->0, c->0);
    }
    if a is Some && b is Some && c is Some {
        lemma_text_order_laws(a->0, b->0, c->0);
    }
}

/// Three-way comparison of two texts in code-point order (the order of
/// `Ord` on `str`, since UTF-8 preserves code-point order).
pub fn compare_chars(a: &Vec<char>, b: &Vec<char>) -> (r: i8)
    ensures
        r == text_order(a@, b@),
{
    let mut i: usize = 0;
    assert(a@.skip(0) =~= a@);
    assert(b@.skip(0) =~= b@);
    while i < a.len() && i < b.len() && a[i] == b[i]
        invariant
            i <= a.len(),
            i <= b.len(),
            a@.take(i as int) == b@.take(i as int),
            text_order(a@, b@) == text_order(a@.skip(i as int), b@.skip(i as int)),
        decreases a.len() - i,
    {
        proof {
            let sa = a@.skip(i as int);
            let sb = b@.skip(i as int);
            assert(sa.drop_first() =~= a@.skip(i + 1));
            assert(sb.drop_first() =~= b@.skip(i + 1));
            assert(a@.take(i + 1) =~= a@.take(i as int).push(a@[i as int]));
            assert(b@.take(i + 1) =~= b@.take(i as int).push(b@[i as int]));
            assert(text_lt(sa, sb) == text_lt(sa.drop_first(), sb.drop_first()));
            assert(text_lt(sb, sa) == text_lt(sb.drop_first(), sa.drop_first()));
            if sa.drop_first() == sb.drop_first() {
                assert(sa =~= seq![sa[0]] + sa.drop_first());
                assert(sb =~= seq![sb[0]] + sb.drop_first());
            }
            if sa == sb {
                assert(sa.drop_first() =~= sb.drop_first());
            }
        }
        i += 1;
    }
    proof {
        let sa = a@.skip(i as int);
        let sb = b@.skip(i as int);
        lemma_text_lt_irreflexive(sa);
        if sa == sb {
            assert(a@ =~= a@.take(i as int) + sa);
            assert(b@ =~= b@.take(i as int) + sb);
        }
        if i < a.len() && i < b.len() {
            assert(sa[0] != sb[0]);
        }
    }
    if i < a.len() && i < b.len() {
        if a[i] < b[i] {
            -1
        } else {
            1
        }
    } else if i < a.len() {
        1
    } else if i < b.len() {
        -1
    } else {
        proof {
            assert(a@.take(i as int) =~= a@);
            assert(b@.take(i as int) =~= b@);
        }
        0
    }
}

/// Three-way comparison of two strings in code-point order.
pub fn compare_text(a: &str, b: &str) -> (r: i8)
    ensures
        r == text_order(a@, b@),
{
    compare_chars(&chars_of(a), &chars_of(b))
}

/// The view of an optional string.
pub open spec fn opt_view(o: Option<String>) -> Option<Seq<char>> {
    match o {
        Some(s) => Some(s@),
        None => None,
    }
}

/// Three-way comparison of optional strings, absent before present.
pub fn compare_opt_text(a: &Option<String>, b: &Option<String>) -> (r: i8)
    ensures
        r == opt_text_order(opt_view(*a), opt_view(*b)),
{
    match (a, b) {
        (None, None) => 0,
        (None, Some(_)) => -1,
        (Some(_), None) => 1,
        (Some(x), Some(y)) => compare_text(x.as_str(), y.as_str()),
    }
}

// ---------------------------------------------------------------------------
// Rewriting and formatting
// ---------------------------------------------------------------------------

/// `s` with every occurrence of the character `c` replaced by `r`.
pub open spec fn replace_char(s: Seq<char>, c: char, r: Seq<char>) -> Seq<char>
    decreases s.len(),
{
    if s.len() == 0 {
        seq![]
    } else if s.last() == c {
        replace_char(s.drop_last(), c, r) + r
    } else {
        replace_char(s.drop_last(), c, r).push(s.last())
    }
}

/// Replaces every `c` in `s` by `r`.
pub fn replace_chars(s: &Vec<char>, c: char, r: &Vec<char>) -> (out: Vec<char>)
    ensures
        out@ == replace_char(s@, c, r@),
{
    let mut out: Vec<char> = Vec::new();
    let mut i: usize = 0;
    while i < s.len()
        invariant
            i <= s.len(),
            out@ == replace_char(s@.take(i as int), c, r@),
        decreases s.len() - i,
    {
        assert(s@.take(i + 1).drop_last() =~= s@.take(i as int));
        if s[i] == c {
            let mut k: usize = 0;
            let ghost before = out@;
            while k < r.len()
                invariant
                    k <= r.len(),
                    out@ == before + r@.take(k as int),
                decreases r.len() - k,
            {
                out.push(r[k]);
                assert(r@.take(k + 1) =~= r@.take(k as int).push(r@[k as int]));
                k += 1;
            }
            assert(r@.take(r.len() as int) =~= r@);
        } else {
            out.push(s[i]);
        }
        i += 1;
    }
    assert(s@.take(s.len() as int) =~= s@);
    out
}

/// The decimal digit for `d` (0 to 9).
pub open spec fn digit_char(d: nat) -> char {
    if d == 0 {
        '0'
    } else if d == 1 {
        '1'
    } else if d == 2 {
        '2'
    } else if d == 3 {
        '3'
    } else if d == 4 {
        '4'
    } else if d == 5 {
        '5'
    } else if d == 6 {
        '6'
    } else if d == 7 {
        '7'
    } else if d == 8 {
        '8'
    } else {
        '9'
    }
}

/// The decimal numeral of `n`, without leading zeros.
pub open spec fn decimal(n: nat) -> Seq<char>
    decreases n,
{
    if n < 10 {
        seq![digit_char(n)]
    } else {
        decimal(n / 10).push(digit_char(n % 10))
    }
}

/// Appends the decimal numeral of `n`.
pub fn push_decimal(buf: &mut String, n: usize)
    ensures
        final(buf)@ == old(buf)@ + decimal(n as nat),
    decreases n,
{
    if n >= 10 {
        push_decimal(buf, n / 10);
    }
    let d = n % 10;
    let c = if d == 0 {
        '0'
    } else if d == 1 {
        '1'
    } else if d == 2 {
        '2'
    } else if d == 3 {
        '3'
    } else if d == 4 {
        '4'
    } else if d == 5 {
        '5'
    } else if d == 6 {
        '6'
    } else if d == 7 {
        '7'
    } else if d == 8 {
        '8'
    } else {
        '9'
    };
    push_char(buf, c);
    proof {
        if n >= 10 {
            assert(decimal(n as nat) == decimal((n / 10) as nat).push(digit_char((n % 10) as nat)));
        }
    }
}

/// The decimal numeral of `n`.
pub fn decimal_string(n: usize) -> (s: String)
    ensures
        s@ == decimal(n as nat),
{
    let mut s = String::new();
    push_decimal(&mut s, n);
    assert(s@ =~= decimal(n as nat));
    s
}

/// `n` copies of `c`.
pub open spec fn repeat_char(c: char, n: nat) -> Seq<char> {
    Seq::new(n, |i: int| c)
}

/// Appends `n` copies of `c`.
pub fn push_repeat(buf: &mut String, c: char, n: usize)
    ensures
        final(buf)@ == old(buf)@ + repeat_char(c, n as nat),
{
    let ghost start = buf@;
    let mut i: usize = 0;
    while i < n
        invariant
            i <= n,
            buf@ == start + repeat_char(c, i as nat),
        decreases n - i,
    {
        push_char(buf, c);
        assert(repeat_char(c, (i + 1) as nat) =~= repeat_char(c, i as nat).push(c));
        i += 1;
    }
}

/// `n` copies of the text `t`, one after another.
pub open spec fn repeat_text(t: Seq<char>, n: nat) -> Seq<char>
    decreases n,
{
    if n == 0 {
        seq![]
    } else {
        repeat_text(t, (n - 1) as nat) + t
    }
}

// ---------------------------------------------------------------------------
// First occurrences and trimming
// ---------------------------------------------------------------------------

/// The first position at or after `i` where `pat` occurs in `hay`.
pub open spec fn first_from(hay: Seq<char>, pat: Seq<char>, i: int) -> Option<int>
    decreases hay.len() + 1 - i,
{
    if i < 0 || i + pat.len() > hay.len() {
        None
    } else if occurs_at(hay, pat, i) {
        Some(i)
    } else {
        first_from(hay, pat, i + 1)
    }
}

/// The first position where `pat` occurs in `hay`.
pub open spec fn first_occurrence(hay: Seq<char>, pat: Seq<char>) -> Option<int> {
    first_from(hay, pat, 0)
}

/// The part of `hay` before the first `pat` (all of it when `pat` is absent).
pub open spec fn prefix_before(hay: Seq<char>, pat: Seq<char>) -> Seq<char> {
    match first_occurrence(hay, pat) {
        Some(i) => hay.take(i),
        None => hay,
    }
}

/// The part of `hay` after the first `pat`, when `pat` occurs.
pub open spec fn suffix_after(hay: Seq<char>, pat: Seq<char>) -> Option<Seq<char>> {
    match first_occurrence(hay, pat) {
        Some(i) => Some(hay.skip(i + pat.len())),
        None => None,
    }
}

proof fn lemma_first_from(hay: Seq<char>, pat: Seq<char>, i: int, r: Option<int>)
    requires
        0 <= i,
        forall|j: int| i <= j < (match r {
            Some(k) => k,
            None => (hay.len() + 1) as int,
        }) ==> !occurs_at(hay, pat, j),
        r matches Some(k) ==> i <= k && occurs_at(hay, pat, k),
    ensures
        first_from(hay, pat, i) == r,
    decreases hay.len() + 1 - i,
{
    if i + pat.len() > hay.len() {
        if let Some(k) = r {
            assert(occurs_at(hay, pat, k));
        }
    } else if occurs_at(hay, pat, i) {
    } else {
        lemma_first_from(hay, pat, i + 1, r);
    }
}

/// The first position where `pat` occurs in `hay` (see [`first_occurrence`]).
pub fn first_index(hay: &Vec<char>, pat: &Vec<char>) -> (r: Option<usize>)
    ensures
        match r {
            Some(i) => first_occurrence(hay@, pat@) == Some(i as int) && i + pat@.len() <= hay@.len(),
            None => first_occurrence(hay@, pat@) is None,
        },
{
    let r = find(hay, pat);
    proof {
        match r {
            Some(i) => {
                lemma_first_from(hay@, pat@, 0, Some(i as int));
            },
            None => {
                lemma_first_from(hay@, pat@, 0, None);
            },
        }
    }
    r
}

/// `s` without leading whitespace.
pub open spec fn trim_start_of(s: Seq<char>) -> Seq<char>
    decreases s.len(),
{
    if s.len() > 0 && char_is_whitespace(s[0]) {
        trim_start_of(s.drop_first())
    } else {
        s
    }
}

/// `s` without trailing whitespace.
pub open spec fn trim_end_of(s: Seq<char>) -> Seq<char>
    decreases s.len(),
{
    if s.len() > 0 && char_is_whitespace(s.last()) {
        trim_end_of(s.drop_last())
    } else {
        s
    }
}

/// `s` without leading and trailing whitespace.
pub open spec fn trim_of(s: Seq<char>) -> Seq<char> {
    trim_end_of(trim_start_of(s))
}

/// Removes leading and trailing whitespace.
pub fn trim_chars(s: &Vec<char>) -> (out: Vec<char>)
    ensures
        out@ == trim_of(s@),
{
    let mut a: usize = 0;
    assert(s@.skip(0) =~= s@);
    while a < s.len() && is_whitespace(s[a])
        invariant
            a <= s.len(),
            trim_start_of(s@) == trim_start_of(s@.skip(a as int)),
        decreases s.len() - a,
    {
        assert(s@.skip(a as int).drop_first() =~= s@.skip(a + 1));
        a += 1;
    }
    let ghost t = s@.skip(a as int);
    assert(trim_start_of(t) == t);
    let mut b: usize = s.len();
    assert(s@.subrange(a as int, b as int) =~= t);
    while b > a && is_whitespace(s[b - 1])
        invariant
            a <= b <= s.len(),
            trim_end_of(t) == trim_end_of(s@.subrange(a as int, b as int)),
        decreases b,
    {
        assert(s@.subrange(a as int, b as int).drop_last() =~= s@.subrange(a as int, b - 1));
        b -= 1;
    }
    slice_chars(s, a, b)
}

} // verus!
