//! Grapheme clusters and display widths, from `unicode-segmentation` and
//! `unicode-width`.
use unicode_segmentation::UnicodeSegmentation;
use unicode_width::UnicodeWidthStr;
use vstd::prelude::*;

verus! {

/// The extended grapheme clusters of a text, in order, as
/// `UnicodeSegmentation::graphemes(text, true)` yields them.
pub uninterp spec fn grapheme_clusters(text: Seq<char>) -> Seq<Seq<char>>;

/// The columns a terminal gives a text, as `UnicodeWidthStr::width`
/// measures it.
pub uninterp spec fn str_width(text: Seq<char>) -> nat;

/// `UnicodeSegmentation::graphemes(text, true)` from `unicode-segmentation`,
/// collected. The contract names the clusters, and states what the crate's
/// source shows of them: each is a non-empty slice of the text, and they
/// follow one another from its start to its end.
#[verifier::external_body]
pub(crate) fn graphemes(text: &str) -> (gs: Vec<String>)
    ensures
        gs@.map_values(|g: String| g@) == grapheme_clusters(text@),
        gs@.map_values(|g: String| g@).flatten() == text@,
        forall|i: int| 0 <= i < gs@.len() ==> (#[trigger] gs@[i])@.len() > 0,
{
    text.graphemes(true).map(|g| g.to_string()).collect()
}

/// `UnicodeWidthStr::width` from `unicode-width`: the columns a terminal
/// gives the text. Nothing more is stated; the tables are the crate's.
#[verifier::external_body]
pub(crate) fn text_width(text: &str) -> (w: usize)
    ensures
        w == str_width(text@),
{
    text.width()
}

/// Append `t` to `s`.
pub(crate) fn push_str(s: &mut String, t: &str)
    ensures
        final(s)@ == old(s)@ + t@,
{
    s.append(t)
}

/// `String::push` from `std`.
#[verifier::external_body]
pub(crate) fn push_char(s: &mut String, c: char)
    ensures
        final(s)@ == old(s)@.push(c),
{
    s.push(c)
}

/// The characters of a text.
pub(crate) fn chars_of(text: &str) -> (cs: Vec<char>)
    ensures
        cs@ == text@,
{
    broadcast use vstd::string::axiom_spec_iter;

    let mut cs: Vec<char> = Vec::new();
    for c in it: text.chars()
        invariant
            it.seq() == text@,
            cs@ == text@.take(it.index() as int),
    {
        cs.push(c);
        proof {
            assert(text@.take(it.index() + 1) =~= text@.take(it.index() as int).push(c));
        }
    }
    assert(cs@ =~= text@);
    cs
}

} // verus!
