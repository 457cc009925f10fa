//! Line diffs as styled text, one row per line.
use crate::buffer::Style;
use crate::layout::{Span, SpanView};
use crate::unicode::{push_char, push_str};
use vstd::string::StrSliceExecFns;
use similar::{ChangeTag, TextDiff};
use vstd::prelude::*;

verus! {

/// Whether a line is kept, taken out, or put in.
#[derive(Clone, Copy, Debug, PartialEq, Eq, Structural)]
pub enum Change {
    Equal,
    Delete,
    Insert,
}

/// The line changes that turn `before` into `after`, in order, each with
/// its line and the newline that ends it where the text has one, as
/// `similar::TextDiff::from_lines(before, after).iter_all_changes()`
/// yields them.
pub uninterp spec fn line_changes(before: Seq<char>, after: Seq<char>) -> Seq<(Change, Seq<char>)>;

/// `TextDiff::from_lines` and `iter_all_changes` from `similar`, with each
/// change's tag and line taken as plain values. The contract names the
/// changes; the diff algorithm is the crate's.
#[verifier::external_body]
fn changes(before: &str, after: &str) -> (r: Vec<(Change, String)>)
    ensures
        r@.map_values(|c: (Change, String)| (c.0, c.1@)) == line_changes(before@, after@),
{
    let diff = TextDiff::from_lines(before, after);
    let tag = |t: ChangeTag| match t {
        ChangeTag::Equal => Change::Equal,
        ChangeTag::Delete => Change::Delete,
        ChangeTag::Insert => Change::Insert,
    };
    diff.iter_all_changes().map(|c| (tag(c.tag()), c.value().to_string())).collect()
}

/// The row for one line change: `+` in the added style, `-` in the removed
/// style, or a space in the base style, then the line, ending in a newline.
pub open spec fn change_span(
    change: (Change, Seq<char>),
    base: Style,
    added: Style,
    removed: Style,
) -> SpanView {
    let (prefix, style) = match change.0 {
        Change::Insert => ('+', added),
        Change::Delete => ('-', removed),
        Change::Equal => (' ', base),
    };
    let line = change.1;
    let newline = if line.len() > 0 && line.last() == '\n' {
        Seq::empty()
    } else {
        seq!['\n']
    };
    SpanView { text: seq![prefix] + line + newline, style, link: None }
}

/// The rows of a diff: a span for each change, with the newline after the
/// last line taken off, since it would lay out as an empty row.
pub open spec fn diff_spans(
    changes: Seq<(Change, Seq<char>)>,
    base: Style,
    added: Style,
    removed: Style,
) -> Seq<SpanView> {
    let spans = changes.map_values(
        |c: (Change, Seq<char>)| change_span(c, base, added, removed),
    );
    if spans.len() == 0 {
        spans
    } else {
        let last = spans.last();
        spans.update(
            spans.len() - 1,
            SpanView { text: last.text.drop_last(), style: last.style, link: last.link },
        )
    }
}

/// Produce a line diff with explicit addition and deletion styles, one row
/// per line. Unchanged lines retain the base style; missing final newlines
/// remain separate rows, and no empty row trails the last line.
pub fn render(before: &str, after: &str, base: Style, added: Style, removed: Style) -> (spans: Vec<Span>)
    ensures
        spans@.map_values(|s: Span| s@) == diff_spans(line_changes(before@, after@), base, added, removed),
{
    let cs = changes(before, after);
    let ghost all = cs@.map_values(|c: (Change, String)| (c.0, c.1@));
    let ghost want = all.map_values(|c: (Change, Seq<char>)| change_span(c, base, added, removed));
    let ghost target = diff_spans(all, base, added, removed);
    let n = cs.len();
    let mut spans: Vec<Span> = Vec::new();
    let mut i: usize = 0;
    while i < n
        invariant
            i <= n == cs@.len(),
            all == cs@.map_values(|c: (Change, String)| (c.0, c.1@)),
            want == all.map_values(|c: (Change, Seq<char>)| change_span(c, base, added, removed)),
            target == diff_spans(all, base, added, removed),
            spans@.len() == i,
            forall|k: int| 0 <= k < i ==> (#[trigger] spans@[k])@ == target[k],
        decreases n - i,
    {
        let tag = cs[i].0;
        let line = cs[i].1.as_str();
        let (prefix, style) = match tag {
            Change::Insert => ('+', added),
            Change::Delete => ('-', removed),
            Change::Equal => (' ', base),
        };
        let k = line.unicode_len();
        let ends = k > 0 && line.get_char(k - 1) == '\n';
        let mut text = String::new();
        push_char(&mut text, prefix);
        assert(all[i as int] == (tag, line@));
        let ghost full = change_span(all[i as int], base, added, removed).text;
        if i + 1 == n {
            if ends {
                push_str(&mut text, line.substring_char(0, k - 1));
            } else {
                push_str(&mut text, line);
            }
            assert(text@ =~= full.drop_last());
        } else {
            push_str(&mut text, line);
            if !ends {
                push_char(&mut text, '\n');
            }
            assert(text@ =~= full);
        }
        spans.push(Span { text, style, link: None });
        i = i + 1;
    }
    assert(spans@.map_values(|s: Span| s@) =~= target);
    spans
}

} // verus!
