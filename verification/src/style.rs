use vstd::prelude::*;

use crate::text::{decimal, push_decimal, push_str};

verus! {

/// A terminal style: the text that switches it on and the text that resets it.
pub struct Style {
    pub on: String,
    pub off: String,
}

/// The styles the readable outputs use.
pub struct Styles {
    pub dim: Style,
    pub bold: Style,
    pub blue: Style,
    pub green: Style,
    pub underline: Style,
    pub h1: Style,
    pub h2: Style,
}

/// `text` wrapped in a style.
pub open spec fn styled(s: Style, text: Seq<char>) -> Seq<char> {
    s.on@ + text + s.off@
}

/// Appends `text` wrapped in a style.
pub fn push_styled(buf: &mut String, s: &Style, text: &str)
    ensures
        final(buf)@ == old(buf)@ + styled(*s, text@),
{
    let ghost start = buf@;
    push_str(buf, s.on.as_str());
    push_str(buf, text);
    push_str(buf, s.off.as_str());
    assert(buf@ =~= start + styled(*s, text@));
}

/// The decimal numeral of `n` right-aligned in a field of width 2.
pub open spec fn pad2(n: nat) -> Seq<char> {
    if n < 10 {
        seq![' '] + decimal(n)
    } else {
        decimal(n)
    }
}

/// Appends `n` right-aligned in a field of width 2.
pub fn push_pad2(buf: &mut String, n: usize)
    ensures
        final(buf)@ == old(buf)@ + pad2(n as nat),
{
    let ghost start = buf@;
    if n < 10 {
        crate::text::push_char(buf, ' ');
    }
    push_decimal(buf, n);
    assert(buf@ =~= start + pad2(n as nat));
}


/// A section banner `> title <`.
pub open spec fn banner(st: Styles, title: Seq<char>) -> Seq<char> {
    styled(st.dim, seq!['>']) + seq![' '] + styled(st.bold, title) + seq![' '] + styled(st.dim, seq!['<'])
}

/// Appends a section banner.
pub fn push_banner(buf: &mut String, st: &Styles, title: &str)
    ensures
        final(buf)@ == old(buf)@ + banner(*st, title@),
{
    let ghost start = buf@;
    push_styled(buf, &st.dim, ">");
    crate::text::push_char(buf, ' ');
    push_styled(buf, &st.bold, title);
    crate::text::push_char(buf, ' ');
    push_styled(buf, &st.dim, "<");
    proof {
        reveal_strlit(">");
        reveal_strlit("<");
    }
    assert(buf@ =~= start + banner(*st, title@));
}

/// Blue bold text.
pub open spec fn blue_bold(st: Styles, text: Seq<char>) -> Seq<char> {
    st.blue.on@ + styled(st.bold, text) + st.blue.off@
}

/// Appends blue bold text.
pub fn push_blue_bold(buf: &mut String, st: &Styles, text: &str)
    ensures
        final(buf)@ == old(buf)@ + blue_bold(*st, text@),
{
    let ghost start = buf@;
    push_str(buf, st.blue.on.as_str());
    push_styled(buf, &st.bold, text);
    push_str(buf, st.blue.off.as_str());
    assert(buf@ =~= start + blue_bold(*st, text@));
}

/// A bullet `•` in the dim style followed by a space.
pub open spec fn bullet(st: Styles) -> Seq<char> {
    styled(st.dim, seq!['•']) + seq![' ']
}

/// Appends a bullet.
pub fn push_bullet(buf: &mut String, st: &Styles)
    ensures
        final(buf)@ == old(buf)@ + bullet(*st),
{
    let ghost start = buf@;
    push_styled(buf, &st.dim, "•");
    crate::text::push_char(buf, ' ');
    proof {
        reveal_strlit("•");
    }
    assert(buf@ =~= start + bullet(*st));
}
} // verus!
