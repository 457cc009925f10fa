//! CommonMark as styled text, with roles styled by the application's
//! palette.
use crate::buffer::{plain_style, Style};
use crate::elements::{RichText, RichTextView};
use crate::layout::{Span, SpanView, Wrap};
use crate::testing::{digits, push_digits};
use crate::unicode::{chars_of, push_char, push_str};
use pulldown_cmark::Event as Parsed;
use vstd::prelude::*;

verus! {

/// Complete styles for Markdown roles, chosen by the application.
#[derive(Clone, Copy, Debug, PartialEq, Eq, Structural)]
pub struct Palette {
    pub text: Style,
    pub heading: Style,
    pub code: Style,
    pub link: Style,
}

impl Default for Palette {
    fn default() -> (p: Self)
        ensures
            p == (Palette {
                text: plain_style(),
                heading: plain_style(),
                code: plain_style(),
                link: plain_style(),
            }),
    {
        Palette {
            text: Style::default(),
            heading: Style::default(),
            code: Style::default(),
            link: Style::default(),
        }
    }
}

/// A block or inline that opens, as far as rendering tells them apart.
#[derive(Clone, Debug, PartialEq, Eq)]
pub enum MdTag {
    Heading,
    Strong,
    Emphasis,
    CodeBlock,
    Link(String),
    List(Option<u64>),
    Item,
    BlockQuote,
    Other,
}

/// A block or inline that closes, as far as rendering tells them apart.
#[derive(Clone, Copy, Debug, PartialEq, Eq, Structural)]
pub enum MdEnd {
    Paragraph,
    Heading,
    CodeBlock,
    BlockQuote,
    Item,
    List,
    Link,
    Other,
}

/// A parser event in plain values.
#[derive(Clone, Debug, PartialEq, Eq)]
pub enum MdEvent {
    Start(MdTag),
    End(MdEnd),
    Text(String),
    Code(String),
    Html(String),
    InlineHtml(String),
    SoftBreak,
    HardBreak,
    Rule,
    Other,
}

/// What an opening tag holds, its link destination as characters.
pub enum MdTagView {
    Heading,
    Strong,
    Emphasis,
    CodeBlock,
    Link(Seq<char>),
    List(Option<u64>),
    Item,
    BlockQuote,
    Other,
}

/// What a parser event holds, its text as characters.
pub enum MdEventView {
    Start(MdTagView),
    End(MdEnd),
    Text(Seq<char>),
    Code(Seq<char>),
    Html(Seq<char>),
    InlineHtml(Seq<char>),
    SoftBreak,
    HardBreak,
    Rule,
    Other,
}

impl View for MdTag {
    type V = MdTagView;

    open spec fn view(&self) -> MdTagView {
        match self {
            MdTag::Heading => MdTagView::Heading,
            MdTag::Strong => MdTagView::Strong,
            MdTag::Emphasis => MdTagView::Emphasis,
            MdTag::CodeBlock => MdTagView::CodeBlock,
            MdTag::Link(d) => MdTagView::Link(d@),
            MdTag::List(n) => MdTagView::List(*n),
            MdTag::Item => MdTagView::Item,
            MdTag::BlockQuote => MdTagView::BlockQuote,
            MdTag::Other => MdTagView::Other,
        }
    }
}

impl View for MdEvent {
    type V = MdEventView;

    open spec fn view(&self) -> MdEventView {
        match self {
            MdEvent::Start(t) => MdEventView::Start(t@),
            MdEvent::End(t) => MdEventView::End(*t),
            MdEvent::Text(s) => MdEventView::Text(s@),
            MdEvent::Code(s) => MdEventView::Code(s@),
            MdEvent::Html(s) => MdEventView::Html(s@),
            MdEvent::InlineHtml(s) => MdEventView::InlineHtml(s@),
            MdEvent::SoftBreak => MdEventView::SoftBreak,
            MdEvent::HardBreak => MdEventView::HardBreak,
            MdEvent::Rule => MdEventView::Rule,
            MdEvent::Other => MdEventView::Other,
        }
    }
}

/// The events of a list, each as plain values.
pub open spec fn events_view(events: Seq<MdEvent>) -> Seq<MdEventView> {
    events.map_values(|e: MdEvent| e@)
}

#[verifier::external_type_specification]
#[verifier::external_body]
pub struct ExTag<'a>(pulldown_cmark::Tag<'a>);

#[verifier::external_type_specification]
#[verifier::external_body]
pub struct ExTagEnd(pulldown_cmark::TagEnd);

/// The events `pulldown_cmark::Parser::new(source)` yields for a text, as
/// plain values.
pub uninterp spec fn markdown_events(source: Seq<char>) -> Seq<MdEventView>;

/// `pulldown_cmark::Parser::new` with its events taken as plain values,
/// variant for variant. The contract names them; the CommonMark grammar is
/// the crate's.
#[verifier::external_body]
fn parse(source: &str) -> (e: Vec<MdEvent>)
    ensures
        events_view(e@) == markdown_events(source@),
{
    pulldown_cmark::Parser::new(source).map(|e| match e {
        Parsed::Start(t) => MdEvent::Start(tag_of(t)),
        Parsed::End(t) => MdEvent::End(end_of(t)),
        Parsed::Text(t) => MdEvent::Text(t.to_string()),
        Parsed::Code(t) => MdEvent::Code(t.to_string()),
        Parsed::Html(t) => MdEvent::Html(t.to_string()),
        Parsed::InlineHtml(t) => MdEvent::InlineHtml(t.to_string()),
        Parsed::SoftBreak => MdEvent::SoftBreak,
        Parsed::HardBreak => MdEvent::HardBreak,
        Parsed::Rule => MdEvent::Rule,
        _ => MdEvent::Other,
    }).collect()
}

/// One `pulldown_cmark` opening tag as plain values, variant for variant.
#[verifier::external_body]
fn tag_of(tag: pulldown_cmark::Tag<'_>) -> MdTag {
    match tag {
        pulldown_cmark::Tag::Heading { .. } => MdTag::Heading,
        pulldown_cmark::Tag::Strong => MdTag::Strong,
        pulldown_cmark::Tag::Emphasis => MdTag::Emphasis,
        pulldown_cmark::Tag::CodeBlock(_) => MdTag::CodeBlock,
        pulldown_cmark::Tag::Link { dest_url, .. } => MdTag::Link(dest_url.to_string()),
        pulldown_cmark::Tag::List(start) => MdTag::List(start),
        pulldown_cmark::Tag::Item => MdTag::Item,
        pulldown_cmark::Tag::BlockQuote(_) => MdTag::BlockQuote,
        _ => MdTag::Other,
    }
}

/// One `pulldown_cmark` closing tag as plain values, variant for variant.
#[verifier::external_body]
fn end_of(tag: pulldown_cmark::TagEnd) -> MdEnd {
    match tag {
        pulldown_cmark::TagEnd::Paragraph => MdEnd::Paragraph,
        pulldown_cmark::TagEnd::Heading(_) => MdEnd::Heading,
        pulldown_cmark::TagEnd::CodeBlock => MdEnd::CodeBlock,
        pulldown_cmark::TagEnd::BlockQuote(_) => MdEnd::BlockQuote,
        pulldown_cmark::TagEnd::Item => MdEnd::Item,
        pulldown_cmark::TagEnd::List(_) => MdEnd::List,
        pulldown_cmark::TagEnd::Link => MdEnd::Link,
        _ => MdEnd::Other,
    }
}

/// The text so far and the blocks open around the parser's position: the
/// spans written, the style of each open inline or block, innermost last,
/// each open link's destination and the text shown for it so far, and
/// each open list's next number, or none for bullets.
pub struct DocView {
    pub spans: Seq<SpanView>,
    pub styles: Seq<Style>,
    pub links: Seq<(Seq<char>, Seq<char>)>,
    pub lists: Seq<Option<u64>>,
}

/// The style of the innermost open block or inline.
pub open spec fn current(d: DocView, p: Palette) -> Style {
    if d.styles.len() > 0 {
        d.styles.last()
    } else {
        p.text
    }
}

/// The newlines that end `t`.
pub open spec fn newline_run(t: Seq<char>) -> nat
    decreases t.len(),
{
    if t.len() > 0 && t.last() == '\n' {
        1 + newline_run(t.drop_last())
    } else {
        0
    }
}

/// The newlines that end the text of `spans`, across spans that hold
/// nothing else.
pub open spec fn trailing(spans: Seq<SpanView>) -> nat
    decreases spans.len(),
{
    if spans.len() == 0 {
        0
    } else {
        let t = spans.last().text;
        let k = newline_run(t);
        if k < t.len() {
            k
        } else {
            k + trailing(spans.drop_last())
        }
    }
}

/// `n` newlines.
pub open spec fn newlines(n: nat) -> Seq<char> {
    Seq::new(n, |i: int| '\n')
}

/// The text ended with at least `count` newlines, adding only those
/// missing, so the ends of nested blocks never stack blank rows.
pub open spec fn end_rows(spans: Seq<SpanView>, count: nat, style: Style) -> Seq<SpanView> {
    let have = trailing(spans);
    if have < count {
        spans.push(SpanView { text: newlines((count - have) as nat), style, link: None })
    } else {
        spans
    }
}

/// The indent and number or bullet of the next item in the innermost list.
pub open spec fn marker(lists: Seq<Option<u64>>) -> Seq<char> {
    let depth: nat = if lists.len() >= 1 { (lists.len() - 1) as nat } else { 0 };
    let indent = Seq::new(2 * depth, |i: int| ' ');
    if lists.len() > 0 && lists.last() is Some {
        indent + digits(lists.last()->0 as nat) + ". "@
    } else {
        indent + "• "@
    }
}

/// The lists once the innermost one's next number is taken.
pub open spec fn numbered(lists: Seq<Option<u64>>) -> Seq<Option<u64>> {
    if lists.len() > 0 && lists.last() is Some {
        let n = lists.last()->0;
        lists.update(lists.len() - 1, Some(if n == u64::MAX { 0 } else { (n + 1) as u64 }))
    } else {
        lists
    }
}

/// Open a block or inline: push its style, and write what leads it.
pub open spec fn start_spec(d: DocView, tag: MdTagView, p: Palette) -> DocView {
    let cur = current(d, p);
    let opened = match tag {
        MdTagView::Heading => DocView { styles: d.styles.push(p.heading), ..d },
        MdTagView::Strong => DocView { styles: d.styles.push(Style { bold: true, ..cur }), ..d },
        MdTagView::Emphasis => DocView { styles: d.styles.push(Style { italic: true, ..cur }), ..d },
        MdTagView::CodeBlock => DocView { styles: d.styles.push(p.code), ..d },
        MdTagView::Link(url) => DocView {
            links: d.links.push((url, Seq::empty())),
            styles: d.styles.push(p.link),
            ..d
        },
        MdTagView::List(n) => DocView { lists: d.lists.push(n), styles: d.styles.push(cur), ..d },
        MdTagView::Item => {
            let ended = if d.spans.len() > 0 {
                end_rows(d.spans, 1, p.text)
            } else {
                d.spans
            };
            DocView {
                spans: ended.push(SpanView { text: marker(d.lists), style: cur, link: None }),
                lists: numbered(d.lists),
                styles: d.styles.push(cur),
                ..d
            }
        },
        MdTagView::BlockQuote => DocView {
            spans: d.spans.push(SpanView { text: "│ "@, style: cur, link: None }),
            styles: d.styles.push(cur),
            ..d
        },
        MdTagView::Other => DocView { styles: d.styles.push(cur), ..d },
    };
    opened
}

/// Close a block or inline: pop its style, and write what follows it.
pub open spec fn end_spec(d: DocView, tag: MdEnd, p: Palette) -> DocView {
    let popped = DocView {
        styles: if d.styles.len() > 0 { d.styles.drop_last() } else { d.styles },
        ..d
    };
    match tag {
        MdEnd::Paragraph | MdEnd::Heading | MdEnd::CodeBlock | MdEnd::BlockQuote => DocView {
            spans: end_rows(popped.spans, 2, p.text),
            ..popped
        },
        MdEnd::Item => DocView { spans: end_rows(popped.spans, 1, p.text), ..popped },
        MdEnd::List => {
            let lists = if popped.lists.len() > 0 { popped.lists.drop_last() } else { popped.lists };
            DocView {
                lists,
                spans: if lists.len() == 0 { end_rows(popped.spans, 2, p.text) } else { popped.spans },
                ..popped
            }
        },
        MdEnd::Link => if popped.links.len() > 0 {
            let (url, shown) = popped.links.last();
            DocView {
                links: popped.links.drop_last(),
                spans: if shown != url {
                    popped.spans.push(SpanView { text: " ("@ + url + ")"@, style: p.link, link: None })
                } else {
                    popped.spans
                },
                ..popped
            }
        } else {
            popped
        },
        MdEnd::Other => popped,
    }
}

/// `text` written in `style`; inside a link it also counts as the link's
/// shown text.
pub open spec fn write_spec(d: DocView, text: Seq<char>, style: Style) -> DocView {
    DocView {
        links: if d.links.len() > 0 {
            d.links.update(d.links.len() - 1, (d.links.last().0, d.links.last().1 + text))
        } else {
            d.links
        },
        spans: d.spans.push(
            SpanView {
                text,
                style,
                link: if d.links.len() > 0 {
                    Some(d.links.last().0)
                } else {
                    None
                },
            },
        ),
        ..d
    }
}

/// The document after one event.
pub open spec fn event_spec(d: DocView, e: MdEventView, p: Palette) -> DocView {
    let cur = current(d, p);
    match e {
        MdEventView::Start(t) => start_spec(d, t, p),
        MdEventView::End(t) => end_spec(d, t, p),
        MdEventView::Text(t) => write_spec(d, t, cur),
        MdEventView::Html(t) => write_spec(d, t, cur),
        MdEventView::InlineHtml(t) => write_spec(d, t, cur),
        MdEventView::Code(t) => write_spec(d, t, p.code),
        MdEventView::SoftBreak => DocView { spans: d.spans.push(SpanView { text: " "@, style: cur, link: None }), ..d },
        MdEventView::HardBreak => DocView { spans: d.spans.push(SpanView { text: "\n"@, style: cur, link: None }), ..d },
        MdEventView::Rule => DocView {
            spans: end_rows(d.spans.push(SpanView { text: "────"@, style: cur, link: None }), 2, p.text),
            ..d
        },
        MdEventView::Other => d,
    }
}

/// The document after the first `n` events.
pub open spec fn doc_after(events: Seq<MdEventView>, p: Palette, n: int) -> DocView
    decreases n,
{
    if n <= 0 || n > events.len() {
        DocView { spans: Seq::empty(), styles: seq![p.text], links: Seq::empty(), lists: Seq::empty() }
    } else {
        event_spec(doc_after(events, p, n - 1), events[n - 1], p)
    }
}

/// The spans without the newlines that end them: a trailing newline would
/// lay out as an empty row.
pub open spec fn trim_spans(spans: Seq<SpanView>) -> Seq<SpanView>
    decreases spans.len(),
{
    if spans.len() == 0 {
        spans
    } else {
        let last = spans.last();
        let kept = last.text.take(last.text.len() - newline_run(last.text));
        if kept.len() > 0 {
            spans.drop_last().push(SpanView { text: kept, style: last.style, link: last.link })
        } else {
            trim_spans(spans.drop_last())
        }
    }
}

/// Rendered Markdown: the spans of every event, trimmed, word wrapped.
pub open spec fn rich_of(events: Seq<MdEventView>, p: Palette) -> RichTextView {
    RichTextView {
        spans: trim_spans(doc_after(events, p, events.len() as int).spans),
        wrap: Wrap::Word,
    }
}

/// The spans' views.
pub open spec fn spans_view(spans: Seq<Span>) -> Seq<SpanView> {
    spans.map_values(|s: Span| s@)
}

/// The newlines that end `text`.
fn newline_tail(text: &str) -> (k: usize)
    ensures
        k == newline_run(text@),
        k <= text@.len(),
{
    let cs = chars_of(text);
    let n = cs.len();
    let mut j = n;
    assert(text@.take(n as int) =~= text@);
    while j > 0 && cs[j - 1] == '\n'
        invariant
            j <= n == text@.len(),
            cs@ == text@,
            newline_run(text@) == (n - j) + newline_run(text@.take(j as int)),
        decreases j,
    {
        assert(text@.take(j as int).drop_last() =~= text@.take(j - 1));
        assert(text@.take(j as int).last() == cs@[j - 1]);
        j = j - 1;
    }
    proof {
        if j > 0 {
            assert(text@.take(j as int).last() == cs@[j - 1]);
        }
    }
    n - j
}

/// A string of `n` copies of `c`.
fn repeated(c: char, n: usize) -> (s: String)
    ensures
        s@ == Seq::new(n as nat, |i: int| c),
{
    let mut s = String::new();
    let mut i: usize = 0;
    while i < n
        invariant
            i <= n,
            s@ == Seq::new(i as nat, |k: int| c),
        decreases n - i,
    {
        push_char(&mut s, c);
        assert(s@ =~= Seq::new((i + 1) as nat, |k: int| c));
        i = i + 1;
    }
    s
}

/// End the text with at least `count` newlines, adding only those missing.
fn end_rows_exec(spans: &mut Vec<Span>, count: usize, style: Style)
    ensures
        spans_view(final(spans)@) == end_rows(spans_view(old(spans)@), count as nat, style),
{
    let ghost sv = spans_view(spans@);
    let mut have: usize = 0;
    let mut i = spans.len();
    let mut done = false;
    assert(sv.take(i as int) =~= sv);
    while i > 0 && !done && have < count
        invariant
            i <= spans@.len(),
            sv == spans_view(spans@),
            spans@ == old(spans)@,
            have <= count,
            ({
                let t = trailing(sv) as int;
                let rest = if done { 0 } else { trailing(sv.take(i as int)) as int };
                (if t < count { t } else { count as int }) == (if have + rest < count { have
                    + rest } else { count as int })
            }),
        decreases i, if done { 0int } else { 1int },
    {
        let k = newline_tail(spans[i - 1].text.as_str());
        let len = spans[i - 1].text.as_str().unicode_len();
        let ghost p = sv.take(i as int);
        proof {
            assert(p.last() == spans@[i - 1]@);
            assert(p.drop_last() =~= sv.take(i - 1));
        }
        let added = if k >= count - have { count } else { have + k };
        if k < len {
            done = true;
        } else {
            i = i - 1;
        }
        have = added;
    }
    if have < count {
        let text = repeated('\n', count - have);
        spans.push(Span { text, style, link: None });
        proof {
            if !done {
                assert(sv.take(0) =~= Seq::<SpanView>::empty());
            }
            assert(spans_view(spans@) =~= sv.push(SpanView { text: newlines((count - have) as nat), style, link: None }));
        }
    }
}

/// The document being written.
struct Doc {
    palette: Palette,
    spans: Vec<Span>,
    styles: Vec<Style>,
    links: Vec<(String, String)>,
    lists: Vec<Option<u64>>,
}

/// The links' views.
pub open spec fn links_view(links: Seq<(String, String)>) -> Seq<(Seq<char>, Seq<char>)> {
    links.map_values(|l: (String, String)| (l.0@, l.1@))
}

impl Doc {
    spec fn view(&self) -> DocView {
        DocView {
            spans: spans_view(self.spans@),
            styles: self.styles@,
            links: links_view(self.links@),
            lists: self.lists@,
        }
    }

    fn current(&self) -> (s: Style)
        ensures
            s == current(self.view(), self.palette),
    {
        if self.styles.len() > 0 {
            self.styles[self.styles.len() - 1]
        } else {
            self.palette.text
        }
    }

    /// Write `text` in `style`, counting it as shown text of an open link.
    fn write(&mut self, text: &String, style: Style)
        ensures
            final(self).view() == write_spec(old(self).view(), text@, style),
            final(self).palette == old(self).palette,
    {
        let ghost d = self.view();
        let link: Option<String> = match self.links.pop() {
            Some((url, shown)) => {
                let mut shown = shown;
                push_str(&mut shown, text.as_str());
                let ghost rest = self.links@;
                let target = url.clone();
                self.links.push((url, shown));
                assert(links_view(self.links@) =~= d.links.update(
                    d.links.len() - 1,
                    (d.links.last().0, d.links.last().1 + text@),
                )) by {
                    assert(links_view(rest) =~= d.links.drop_last());
                }
                Some(target)
            },
            None => {
                assert(d.links.len() == 0);
                None
            },
        };
        let ghost before = self.spans@;
        self.spans.push(Span { text: text.clone(), style, link });
        assert(spans_view(self.spans@) =~= write_spec(d, text@, style).spans);
    }

    /// A span of `text` in `style`.
    fn push_text(&mut self, text: &str, style: Style)
        ensures
            final(self).view() == (DocView {
                spans: old(self).view().spans.push(SpanView { text: text@, style, link: None }),
                ..old(self).view()
            }),
            final(self).palette == old(self).palette,
    {
        let ghost d = self.view();
        self.spans.push(Span::new(text, style));
        assert(spans_view(self.spans@) =~= d.spans.push(SpanView { text: text@, style, link: None }));
    }

    /// The marker of the next item, with the list's number taken.
    fn item_marker(&mut self) -> (m: String)
        ensures
            m@ == marker(old(self).view().lists),
            final(self).view() == (DocView { lists: numbered(old(self).view().lists), ..old(self).view() }),
            final(self).palette == old(self).palette,
    {
        let ghost l = self.lists@;
        let depth = if self.lists.len() >= 1 { self.lists.len() - 1 } else { 0 };
        let mut m = String::new();
        let mut i: usize = 0;
        while i < depth
            invariant
                i <= depth,
                m@ == Seq::new(2 * (i as nat), |k: int| ' '),
            decreases depth - i,
        {
            push_char(&mut m, ' ');
            push_char(&mut m, ' ');
            assert(m@ =~= Seq::new(2 * ((i + 1) as nat), |k: int| ' '));
            i = i + 1;
        }
        let n = self.lists.len();
        let number = if n > 0 { self.lists[n - 1] } else { None };
        match number {
            Some(k) => {
                push_digits(&mut m, k as u128);
                proof {
                    reveal_strlit(". ");
                }
                push_str(&mut m, ". ");
                let next = if k == u64::MAX { 0 } else { k + 1 };
                self.lists.set(n - 1, Some(next));
            },
            None => {
                proof {
                    reveal_strlit("• ");
                }
                push_str(&mut m, "• ");
            },
        }
        proof {
            assert(self.lists@ =~= numbered(l));
        }
        m
    }

    /// Open a block or inline.
    fn start(&mut self, tag: &MdTag)
        ensures
            final(self).view() == start_spec(old(self).view(), tag@, old(self).palette),
            final(self).palette == old(self).palette,
    {
        let ghost d = self.view();
        let p = self.palette;
        let cur = self.current();
        match tag {
            MdTag::Heading => self.styles.push(p.heading),
            MdTag::Strong => self.styles.push(Style { bold: true, ..cur }),
            MdTag::Emphasis => self.styles.push(Style { italic: true, ..cur }),
            MdTag::CodeBlock => self.styles.push(p.code),
            MdTag::Link(url) => {
                let ghost before = self.links@;
                self.links.push((url.clone(), String::new()));
                assert(links_view(self.links@) =~= d.links.push((url@, Seq::empty())));
                self.styles.push(p.link);
            },
            MdTag::List(n) => {
                self.lists.push(*n);
                self.styles.push(cur);
            },
            MdTag::Item => {
                if self.spans.len() > 0 {
                    end_rows_exec(&mut self.spans, 1, p.text);
                }
                let m = self.item_marker();
                let ghost ended = spans_view(self.spans@);
                self.spans.push(Span { text: m, style: cur, link: None });
                assert(spans_view(self.spans@) =~= ended.push(SpanView { text: marker(d.lists), style: cur, link: None }));
                self.styles.push(cur);
            },
            MdTag::BlockQuote => {
                proof {
                    reveal_strlit("│ ");
                }
                self.push_text("│ ", cur);
                self.styles.push(cur);
            },
            MdTag::Other => self.styles.push(cur),
        }
    }

    /// Close a block or inline.
    fn end(&mut self, tag: MdEnd)
        ensures
            final(self).view() == end_spec(old(self).view(), tag, old(self).palette),
            final(self).palette == old(self).palette,
    {
        let p = self.palette;
        self.styles.pop();
        let ghost popped = self.view();
        match tag {
            MdEnd::Paragraph | MdEnd::Heading | MdEnd::CodeBlock | MdEnd::BlockQuote => {
                end_rows_exec(&mut self.spans, 2, p.text);
            },
            MdEnd::Item => end_rows_exec(&mut self.spans, 1, p.text),
            MdEnd::List => {
                self.lists.pop();
                if self.lists.len() == 0 {
                    end_rows_exec(&mut self.spans, 2, p.text);
                }
            },
            MdEnd::Link => {
                match self.links.pop() {
                    Some((url, shown)) => {
                        assert(links_view(self.links@) =~= popped.links.drop_last());
                        if shown != url {
                            let mut text = String::new();
                            proof {
                                reveal_strlit(" (");
                                reveal_strlit(")");
                            }
                            push_str(&mut text, " (");
                            push_str(&mut text, url.as_str());
                            push_str(&mut text, ")");
                            let ghost before = spans_view(self.spans@);
                            self.spans.push(Span { text, style: p.link, link: None });
                            assert(spans_view(self.spans@) =~= before.push(
                                SpanView { text: " ("@ + url@ + ")"@, style: p.link, link: None },
                            ));
                        }
                    },
                    None => {},
                }
            },
            MdEnd::Other => {},
        }
    }

    /// Take one event.
    fn event(&mut self, event: &MdEvent)
        ensures
            final(self).view() == event_spec(old(self).view(), event@, old(self).palette),
            final(self).palette == old(self).palette,
    {
        let cur = self.current();
        match event {
            MdEvent::Start(t) => self.start(t),
            MdEvent::End(t) => self.end(*t),
            MdEvent::Text(t) => self.write(t, cur),
            MdEvent::Html(t) => self.write(t, cur),
            MdEvent::InlineHtml(t) => self.write(t, cur),
            MdEvent::Code(t) => {
                let code = self.palette.code;
                self.write(t, code);
            },
            MdEvent::SoftBreak => {
                proof {
                    reveal_strlit(" ");
                }
                self.push_text(" ", cur);
            },
            MdEvent::HardBreak => {
                proof {
                    reveal_strlit("\n");
                }
                self.push_text("\n", cur);
            },
            MdEvent::Rule => {
                proof {
                    reveal_strlit("────");
                }
                self.push_text("────", cur);
                let text = self.palette.text;
                end_rows_exec(&mut self.spans, 2, text);
            },
            MdEvent::Other => {},
        }
    }
}

/// The spans with the newlines that end them taken off.
fn trim_exec(spans: &mut Vec<Span>)
    ensures
        spans_view(final(spans)@) == trim_spans(spans_view(old(spans)@)),
{
    let mut done = false;
    while !done
        invariant
            trim_spans(spans_view(spans@)) == trim_spans(spans_view(old(spans)@)) || (done
                && spans_view(spans@) == trim_spans(spans_view(old(spans)@))),
            done ==> spans_view(spans@) == trim_spans(spans_view(old(spans)@)),
        decreases spans@.len(), if done { 0int } else { 1int },
    {
        let ghost sv = spans_view(spans@);
        match spans.pop() {
            Some(last) => {
                assert(spans_view(spans@) =~= sv.drop_last());
                let k = newline_tail(last.text.as_str());
                let len = last.text.as_str().unicode_len();
                if k < len {
                    let kept = vstd::string::StrSliceExecFns::substring_char(last.text.as_str(), 0, len - k);
                    let text = kept.to_owned();
                    let ghost before = spans_view(spans@);
                    let ghost lv = last@;
                    assert(sv.last() == lv);
                    spans.push(Span { text, style: last.style, link: last.link });
                    assert(spans_view(spans@) =~= before.push(SpanView {
                        text: lv.text.take(len - k),
                        style: lv.style,
                        link: lv.link,
                    }));
                    assert(last.text@.subrange(0, (len - k) as int) =~= last.text@.take(len - k));
                    done = true;
                } else {
                    assert(sv.last() == last@);
                }
            },
            None => {
                assert(sv.len() == 0);
                done = true;
            },
        }
    }
}

/// Render parser events as styled text.
pub fn render_events(events: &[MdEvent], palette: Palette) -> (t: RichText)
    ensures
        t@ == rich_of(events_view(events@), palette),
{
    let ghost ev = events_view(events@);
    let mut styles: Vec<Style> = Vec::new();
    styles.push(palette.text);
    let mut doc = Doc { palette, spans: Vec::new(), styles, links: Vec::new(), lists: Vec::new() };
    proof {
        assert(doc.view().spans =~= Seq::<SpanView>::empty());
        assert(doc.view().links =~= Seq::<(Seq<char>, Seq<char>)>::empty());
        assert(doc.view().styles =~= seq![palette.text]);
    }
    let mut i: usize = 0;
    while i < events.len()
        invariant
            i <= events@.len(),
            ev == events_view(events@),
            doc.palette == palette,
            doc.view() == doc_after(ev, palette, i as int),
        decreases events@.len() - i,
    {
        doc.event(&events[i]);
        assert(ev[i as int] == events@[i as int]@);
        i = i + 1;
    }
    let mut spans = doc.spans;
    trim_exec(&mut spans);
    let t = RichText::new(spans, Wrap::Word);
    assert(t@.spans == spans_view(t.spans@));
    t
}

/// Code is shown in the palette's code style: text that opens a code block
/// is written in it, the block stays in it for the text that follows, and
/// closing the block returns to the style around it. Inline code takes the
/// code style wherever it stands, and a heading's text the heading style.
pub proof fn code_takes_the_code_style(d: DocView, t: Seq<char>, u: Seq<char>, p: Palette)
    ensures
        ({
            let opened = event_spec(d, MdEventView::Start(MdTagView::CodeBlock), p);
            let written = event_spec(opened, MdEventView::Text(t), p);
            &&& current(opened, p) == p.code
            &&& written.spans.last().text == t
            &&& written.spans.last().style == p.code
            &&& current(written, p) == p.code
            &&& current(event_spec(written, MdEventView::End(MdEnd::CodeBlock), p), p) == current(d, p)
        }),
        event_spec(d, MdEventView::Code(u), p).spans.last().style == p.code,
        event_spec(d, MdEventView::Code(u), p).spans.last().text == u,
        event_spec(event_spec(d, MdEventView::Start(MdTagView::Heading), p), MdEventView::Text(t), p).spans.last().style
            == p.heading,
{
    let opened = event_spec(d, MdEventView::Start(MdTagView::CodeBlock), p);
    let written = event_spec(opened, MdEventView::Text(t), p);
    assert(opened.styles.drop_last() =~= d.styles);
    assert(written.styles == opened.styles);
}

/// Inline roles shape the text inside them: strong text is the surrounding
/// style made bold, emphasis makes it italic, and link text takes the
/// palette's link style and opens the link's destination; closing each
/// returns to the surrounding style.
pub proof fn inline_roles_style_their_text(d: DocView, t: Seq<char>, url: Seq<char>, p: Palette)
    ensures
        ({
            let strong = event_spec(d, MdEventView::Start(MdTagView::Strong), p);
            let w = event_spec(strong, MdEventView::Text(t), p);
            &&& w.spans.last().style == Style { bold: true, ..current(d, p) }
            &&& current(event_spec(w, MdEventView::End(MdEnd::Other), p), p) == current(d, p)
        }),
        ({
            let em = event_spec(d, MdEventView::Start(MdTagView::Emphasis), p);
            let w = event_spec(em, MdEventView::Text(t), p);
            &&& w.spans.last().style == Style { italic: true, ..current(d, p) }
            &&& current(event_spec(w, MdEventView::End(MdEnd::Other), p), p) == current(d, p)
        }),
        ({
            let link = event_spec(d, MdEventView::Start(MdTagView::Link(url)), p);
            let w = event_spec(link, MdEventView::Text(t), p);
            &&& w.spans.last().style == p.link
            &&& w.spans.last().link == Some(url)
            &&& w.spans.last().text == t
        }),
{
    let strong = event_spec(d, MdEventView::Start(MdTagView::Strong), p);
    let w1 = event_spec(strong, MdEventView::Text(t), p);
    assert(w1.styles.drop_last() =~= d.styles);
    let em = event_spec(d, MdEventView::Start(MdTagView::Emphasis), p);
    let w2 = event_spec(em, MdEventView::Text(t), p);
    assert(w2.styles.drop_last() =~= d.styles);
}

/// Render CommonMark as styled text. HTML remains literal text. Link text
/// spans carry their destination as their link, and are followed by the
/// destination in parentheses, unless the text already is the destination. Block layout is linear: one blank row separates
/// blocks, list items take a row each with nested items indented, and no
/// newline trails the last block.
pub fn render(source: &str, palette: Palette) -> (t: RichText)
    ensures
        t@ == rich_of(markdown_events(source@), palette),
{
    let events = parse(source);
    render_events(events.as_slice(), palette)
}

} // verus!
