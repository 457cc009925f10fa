//! Grapheme-safe text measurement and optional hard wrapping.
use crate::buffer::{plain_style, BufferView, Style};
use crate::canvas::{canvas_text, Canvas};
use crate::element::Element;
use crate::geometry::Rect;
use crate::layout::sat;
use crate::scan::{control_free, is_control_free};
use crate::unicode::{grapheme_clusters, graphemes, push_char, push_str, str_width, text_width};
use super::select::{cap, widest_text};
use vstd::prelude::*;

verus! {

/// Plain text in one style, wrapped to the width it is given when `wrap`.
pub struct Text {
    pub content: String,
    pub style: Style,
    pub wrap: bool,
}

impl Default for Text {
    fn default() -> (t: Self)
        ensures
            t.content@ == Seq::<char>::empty(),
            t.style == plain_style(),
            !t.wrap,
    {
        Text { content: String::new(), style: Style::default(), wrap: false }
    }
}

impl Text {
    pub fn new(content: &str) -> (t: Self)
        ensures
            t.content@ == content@,
            t.style == plain_style(),
            !t.wrap,
    {
        Text { content: content.to_owned(), style: Style::default(), wrap: false }
    }
}

/// The lines of `s` between line feeds, as `str::split('\n')` yields them:
/// always one more than the line feeds.
pub open spec fn lines_of(s: Seq<char>) -> Seq<Seq<char>>
    decreases s.len(),
{
    if s.len() == 0 {
        seq![Seq::empty()]
    } else {
        let prev = lines_of(s.drop_last());
        if s.last() == '\n' {
            prev.push(Seq::empty())
        } else {
            prev.update(prev.len() - 1, prev.last().push(s.last()))
        }
    }
}

proof fn lines_not_empty(s: Seq<char>)
    ensures
        lines_of(s).len() >= 1,
    decreases s.len(),
{
    if s.len() > 0 {
        lines_not_empty(s.drop_last());
    }
}

/// Rows wrapped so far: those finished, the one being filled, and its
/// columns.
pub struct Wrapped {
    pub rows: Seq<Seq<char>>,
    pub row: Seq<char>,
    pub cols: nat,
}

/// The first `k` graphemes of a line placed: one holding a control
/// character is dropped, and with a `limit`, so is one wider than it, and
/// one that does not fit starts a new row.
pub open spec fn wrap_line(gs: Seq<Seq<char>>, limit: Option<u16>, k: int) -> Wrapped
    decreases k,
{
    if k <= 0 || k > gs.len() {
        Wrapped { rows: Seq::empty(), row: Seq::empty(), cols: 0 }
    } else {
        let s = wrap_line(gs, limit, k - 1);
        let g = gs[k - 1];
        let n = str_width(g);
        if !control_free(g) {
            s
        } else if limit matches Some(w) && n > w {
            s
        } else {
            let t = if limit matches Some(w) && s.cols + n > w {
                Wrapped { rows: s.rows.push(s.row), row: Seq::empty(), cols: 0 }
            } else {
                s
            };
            Wrapped { row: t.row + g, cols: sat(t.cols + n as int), ..t }
        }
    }
}

/// A line's rows.
pub open spec fn line_rows(line: Seq<char>, limit: Option<u16>) -> Seq<Seq<char>> {
    let gs = grapheme_clusters(line);
    let w = wrap_line(gs, limit, gs.len() as int);
    w.rows.push(w.row)
}

/// The rows of the first `k` lines, one after another.
pub open spec fn rows_of(lines: Seq<Seq<char>>, limit: Option<u16>, k: int) -> Seq<Seq<char>>
    decreases k,
{
    if k <= 0 || k > lines.len() {
        Seq::empty()
    } else {
        rows_of(lines, limit, k - 1) + line_rows(lines[k - 1], limit)
    }
}

/// The rows a text shows: its lines, each wrapped to the width when
/// wrapping and given one.
pub open spec fn text_rows(content: Seq<char>, wrap: bool, width: Option<u16>) -> Seq<Seq<char>> {
    let limit = if wrap {
        width
    } else {
        None
    };
    let lines = lines_of(content);
    rows_of(lines, limit, lines.len() as int)
}

/// Rows from `y` on, each on its own local row, up to `end`.
pub open spec fn text_paint(
    b: BufferView,
    origin: (i32, i32),
    clip: Rect,
    rows: Seq<Seq<char>>,
    style: Style,
    y: int,
    end: int,
) -> BufferView
    decreases end - y,
{
    if y < 0 || y >= end || y >= rows.len() {
        b
    } else {
        text_paint(canvas_text(b, origin, clip, 0, y as i32, rows[y], style), origin, clip, rows, style, y + 1, end)
    }
}

/// The texts of a list of strings.
pub open spec fn strings(v: Seq<String>) -> Seq<Seq<char>> {
    v.map_values(|s: String| s@)
}

/// Wrap one line's graphemes, appending its rows.
fn wrap_into(out: &mut Vec<String>, line: &str, limit: Option<u16>)
    ensures
        strings(final(out)@) == strings(old(out)@) + line_rows(line@, limit),
{
    let gs = graphemes(line);
    let ghost gv = gs@.map_values(|g: String| g@);
    let mut row = String::new();
    let mut cols: usize = 0;
    let mut k: usize = 0;
    let ghost start = strings(out@);
    while k < gs.len()
        invariant
            k <= gs@.len(),
            gv == gs@.map_values(|g: String| g@),
            gv == grapheme_clusters(line@),
            ({
                let w = wrap_line(gv, limit, k as int);
                &&& strings(out@) == start + w.rows
                &&& row@ == w.row
                &&& cols == w.cols
            }),
        decreases gs@.len() - k,
    {
        let g = gs[k].as_str();
        assert(gv[k as int] == g@);
        if is_control_free(g) {
            let n = text_width(g);
            let too_wide = match limit {
                Some(w) => n > w as usize,
                None => false,
            };
            if !too_wide {
                let full = match limit {
                    Some(w) => cols.saturating_add(n) > w as usize,
                    None => false,
                };
                if full {
                    let mut done = String::new();
                    std::mem::swap(&mut done, &mut row);
                    let ghost before = out@;
                    out.push(done);
                    assert(strings(out@) =~= strings(before).push(done@));
                    cols = 0;
                }
                push_str(&mut row, g);
                cols = cols.saturating_add(n);
            }
        }
        k = k + 1;
    }
    let ghost before = out@;
    out.push(row);
    assert(strings(out@) =~= strings(before).push(row@));
}

impl Text {
    /// The rows of the text: lines between line feeds, hard wrapped to
    /// `width` when `wrap` is on. Measuring and painting share them, so
    /// layout matches paint.
    fn rows(&self, width: Option<u16>) -> (rows: Vec<String>)
        ensures
            strings(rows@) == text_rows(self.content@, self.wrap, width),
    {
        broadcast use vstd::string::axiom_spec_iter;

        let limit = if self.wrap { width } else { None };
        let ghost content = self.content@;
        let mut out: Vec<String> = Vec::new();
        let mut line = String::new();
        let chars = self.content.as_str().chars();
        for c in it: chars
            invariant
                it.seq() == content,
                content == self.content@,
                ({
                    let ls = lines_of(content.take(it.index() as int));
                    &&& strings(out@) == rows_of(ls, limit, ls.len() - 1)
                    &&& line@ == ls.last()
                }),
        {
            let ghost idx = it.index() as int;
            let ghost prev = lines_of(content.take(idx));
            proof {
                lines_not_empty(content.take(idx));
                assert(content.take(idx + 1).drop_last() =~= content.take(idx));
                assert(content.take(idx + 1).last() == c);
            }
            if c == '\n' {
                let mut done = String::new();
                std::mem::swap(&mut done, &mut line);
                wrap_into(&mut out, done.as_str(), limit);
                proof {
                    let next = lines_of(content.take(idx + 1));
                    assert(next == prev.push(Seq::<char>::empty()));
                    assert(next.drop_last() =~= prev);
                    assert forall|j: int| 0 <= j < prev.len() implies next[j] == prev[j] by {}
                    rows_prefix(prev, next, limit, prev.len() - 1);
                    assert(next[prev.len() - 1] == prev.last());
                    assert(rows_of(next, limit, next.len() - 1) == rows_of(prev, limit, prev.len() - 1)
                        + line_rows(prev.last(), limit));
                }
            } else {
                push_char(&mut line, c);
                proof {
                    let next = lines_of(content.take(idx + 1));
                    assert(next == prev.update(prev.len() - 1, prev.last().push(c)));
                    assert forall|j: int| 0 <= j < prev.len() - 1 implies next[j] == prev[j] by {}
                    rows_prefix(prev, next, limit, prev.len() - 1);
                }
            }
        }
        wrap_into(&mut out, line.as_str(), limit);
        proof {
            assert(content.take(content.len() as int) =~= content);
            let ls = lines_of(content);
            lines_not_empty(content);
        }
        out
    }
}

/// Rows of lines that agree up to `k` agree.
proof fn rows_prefix(a: Seq<Seq<char>>, b: Seq<Seq<char>>, limit: Option<u16>, k: int)
    requires
        0 <= k <= a.len(),
        k <= b.len(),
        forall|j: int| 0 <= j < k ==> a[j] == b[j],
    ensures
        rows_of(a, limit, k) == rows_of(b, limit, k),
    decreases k,
{
    if k > 0 {
        rows_prefix(a, b, limit, k - 1);
    }
}

impl Element for Text {
    /// As wide as the widest row and one row per row, for a layout of
    /// `width`.
    fn measure(&self, width: Option<u16>) -> (r: (u16, u16))
        ensures
            r.0 == cap(widest_text(text_rows(self.content@, self.wrap, width), text_rows(self.content@, self.wrap, width).len() as int)),
            r.1 == cap(text_rows(self.content@, self.wrap, width).len() as int),
    {
        let rows = self.rows(width);
        let ghost rs = strings(rows@);
        let mut widest: usize = 0;
        let mut k: usize = 0;
        while k < rows.len()
            invariant
                k <= rows@.len(),
                rs == strings(rows@),
                widest == widest_text(rs, k as int),
            decreases rows@.len() - k,
        {
            let w = text_width(rows[k].as_str());
            assert(rs[k as int] == rows@[k as int]@);
            if w > widest {
                widest = w;
            }
            k = k + 1;
        }
        let across: u16 = if widest > 65535 { 65535 } else { widest as u16 };
        let down: u16 = if rows.len() > 65535 { 65535 } else { rows.len() as u16 };
        (across, down)
    }

    /// The rows for the canvas's width, as many as fit its height.
    fn paint(&self, canvas: &mut Canvas<'_>)
        ensures
            final(canvas).frame() == text_paint(
                old(canvas).frame(),
                old(canvas).origin_spec(),
                old(canvas).clip_spec(),
                text_rows(self.content@, self.wrap, Some(old(canvas).size_spec().0)),
                self.style,
                0,
                old(canvas).size_spec().1 as int,
            ),
    {
        let size = canvas.size();
        let rows = self.rows(Some(size.0));
        let ghost rs = strings(rows@);
        let ghost origin = canvas.origin_spec();
        let ghost clip = canvas.clip_spec();
        let ghost total = text_paint(canvas.frame(), origin, clip, rs, self.style, 0, size.1 as int);
        let mut y: usize = 0;
        while y < rows.len() && y < size.1 as usize
            invariant
                rs == strings(rows@),
                size == canvas.size_spec(),
                origin == canvas.origin_spec(),
                clip == canvas.clip_spec(),
                canvas.origin_spec() == old(canvas).origin_spec(),
                canvas.clip_spec() == old(canvas).clip_spec(),
                canvas.size_spec() == old(canvas).size_spec(),
                canvas.focused_spec() == old(canvas).focused_spec(),
                canvas.frame().wf(),
                text_paint(canvas.frame(), origin, clip, rs, self.style, y as int, size.1 as int) == total,
            decreases rows@.len() - y,
        {
            assert(rs[y as int] == rows@[y as int]@);
            canvas.text(0, y as i32, rows[y].as_str(), self.style);
            y = y + 1;
        }
    }
}

} // verus!
