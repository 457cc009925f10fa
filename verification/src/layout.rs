//! Shared grapheme layout for plain and styled text.
use crate::buffer::{plain_style, BufferView, Style};
use crate::canvas::{canvas_text, sat_add, sat_i32, Canvas};
use crate::scan::{all_whitespace, control_free, is_all_whitespace, is_control_free};
use crate::unicode::{grapheme_clusters, graphemes, push_str, str_width, text_width};
use vstd::prelude::*;

verus! {

/// A run of text with one complete terminal style, and the destination it
/// opens where it is a link.
#[derive(Clone, Debug, PartialEq, Eq)]
pub struct Span {
    pub text: String,
    pub style: Style,
    pub link: Option<String>,
}

/// What a span holds: its characters, its style and its link's destination.
pub struct SpanView {
    pub text: Seq<char>,
    pub style: Style,
    pub link: Option<Seq<char>>,
}

/// The characters of a link's destination, if there is one.
pub open spec fn link_view(link: Option<String>) -> Option<Seq<char>> {
    match link {
        Some(url) => Some(url@),
        None => None,
    }
}

impl View for Span {
    type V = SpanView;

    open spec fn view(&self) -> SpanView {
        SpanView { text: self.text@, style: self.style, link: link_view(self.link) }
    }
}

impl Span {
    /// Text in a style, linking nowhere.
    pub fn new(text: &str, style: Style) -> (s: Self)
        ensures
            s@ == (SpanView { text: text@, style, link: None }),
    {
        Span { text: text.to_owned(), style, link: None }
    }

    /// Text in a style that opens `url` in terminals with hyperlinks.
    pub fn link(text: &str, style: Style, url: &str) -> (s: Self)
        ensures
            s@ == (SpanView { text: text@, style, link: Some(url@) }),
    {
        Span { text: text.to_owned(), style, link: Some(url.to_owned()) }
    }
}

/// Wrapping never divides a grapheme. Word wrapping falls back to
/// character wrapping.
#[derive(Clone, Copy, Debug, PartialEq, Eq, Structural)]
pub enum Wrap {
    /// Rows end only at line breaks.
    Off,
    Character,
    Word,
}

impl Default for Wrap {
    fn default() -> (w: Self)
        ensures
            w == Wrap::Off,
    {
        Wrap::Off
    }
}

/// One grapheme placed on a row: its text, style, columns, and whether it
/// is whitespace, where a word wrap may break.
struct Glyph {
    text: String,
    style: Style,
    width: usize,
    whitespace: bool,
}

/// What a placed grapheme holds.
pub struct GlyphView {
    pub text: Seq<char>,
    pub style: Style,
    pub width: nat,
    pub whitespace: bool,
}

impl View for Glyph {
    type V = GlyphView;

    closed spec fn view(&self) -> GlyphView {
        GlyphView {
            text: self.text@,
            style: self.style,
            width: self.width as nat,
            whitespace: self.whitespace,
        }
    }
}

/// The spans' text, one after another.
pub open spec fn content(spans: Seq<SpanView>) -> Seq<char> {
    spans.map_values(|s: SpanView| s.text).flatten()
}

/// The style of the span holding the character at `offset`: the first
/// span that ends after it, or the plain style past the last.
pub open spec fn style_at(spans: Seq<SpanView>, offset: int) -> Style
    decreases spans.len(),
{
    if spans.len() == 0 {
        plain_style()
    } else if spans[0].text.len() > offset {
        spans[0].style
    } else {
        style_at(spans.drop_first(), offset - spans[0].text.len())
    }
}

/// The columns a row may hold: unbounded without wrapping or a width.
pub open spec fn limit_of(width: Option<u16>, wrap: Wrap) -> nat {
    if wrap == Wrap::Off {
        usize::MAX as nat
    } else {
        match width {
            Some(w) => w as nat,
            None => usize::MAX as nat,
        }
    }
}

/// A count of columns, saturating at the largest `usize`.
pub open spec fn sat(n: int) -> nat {
    if n > usize::MAX {
        usize::MAX as nat
    } else if n < 0 {
        0
    } else {
        n as nat
    }
}

/// The columns a row of glyphs takes.
pub open spec fn row_width(row: Seq<GlyphView>) -> int
    decreases row.len(),
{
    if row.len() == 0 {
        0
    } else {
        row_width(row.drop_last()) + row.last().width
    }
}

/// The last whitespace glyph of a row, where a word wrap breaks it.
pub open spec fn last_space(row: Seq<GlyphView>) -> Option<int>
    decreases row.len(),
{
    if row.len() == 0 {
        None
    } else if row.last().whitespace {
        Some(row.len() - 1)
    } else {
        last_space(row.drop_last())
    }
}

/// Rows laid out so far: those finished, the one being filled, and the
/// columns it takes.
#[verifier::ext_equal]
pub struct Lines {
    pub rows: Seq<Seq<GlyphView>>,
    pub row: Seq<GlyphView>,
    pub columns: nat,
}

/// A line break, as a grapheme.
pub open spec fn is_newline(g: Seq<char>) -> bool {
    g == seq!['\n'] || g == seq!['\r', '\n']
}

/// Place one grapheme: a line break ends the row; a grapheme holding a
/// control character, or wider than a row, is dropped; one that does not
/// fit wraps the row first, after its last whitespace for word wrapping
/// when it has one, else before the grapheme. A word carried to the next
/// row that still leaves no room for the grapheme stays on a row of its
/// own, as character wrapping would break it.
pub open spec fn place(s: Lines, g: Seq<char>, style: Style, limit: nat, word: bool) -> Lines {
    if is_newline(g) {
        Lines { rows: s.rows.push(s.row), row: Seq::empty(), columns: 0 }
    } else if !control_free(g) {
        s
    } else {
        let n = str_width(g);
        if n > limit {
            s
        } else {
            let wrapped = if sat(s.columns + n as int) > limit && s.row.len() > 0 {
                match if word {
                    last_space(s.row)
                } else {
                    None
                } {
                    Some(i) => if sat(sat(row_width(s.row.skip(i + 1))) + n as int) > limit {
                        Lines {
                            rows: s.rows.push(s.row.take(i + 1)).push(s.row.skip(i + 1)),
                            row: Seq::empty(),
                            columns: 0,
                        }
                    } else {
                        Lines {
                            rows: s.rows.push(s.row.take(i + 1)),
                            row: s.row.skip(i + 1),
                            columns: sat(row_width(s.row.skip(i + 1))),
                        }
                    },
                    None => Lines { rows: s.rows.push(s.row), row: Seq::empty(), columns: 0 },
                }
            } else {
                s
            };
            Lines {
                row: wrapped.row.push(
                    GlyphView { text: g, style, width: n, whitespace: all_whitespace(g) },
                ),
                columns: sat(wrapped.columns + n as int),
                ..wrapped
            }
        }
    }
}

/// The first `i` graphemes placed, each in the style of the span its first
/// character comes from.
pub open spec fn lay(spans: Seq<SpanView>, gs: Seq<Seq<char>>, limit: nat, word: bool, i: int) -> Lines
    decreases i,
{
    if i <= 0 || i > gs.len() {
        Lines { rows: Seq::empty(), row: Seq::empty(), columns: 0 }
    } else {
        place(
            lay(spans, gs, limit, word, i - 1),
            gs[i - 1],
            style_at(spans, gs.take(i - 1).flatten().len() as int),
            limit,
            word,
        )
    }
}

/// The rows a layout measures: the spans' graphemes placed in order, and
/// the last row, though empty.
pub open spec fn layout_spec(spans: Seq<SpanView>, width: Option<u16>, wrap: Wrap) -> Seq<Seq<GlyphView>> {
    let gs = grapheme_clusters(content(spans));
    let end = lay(spans, gs, limit_of(width, wrap), wrap == Wrap::Word, gs.len() as int);
    end.rows.push(end.row)
}

/// Measured rows used unchanged by painting. Span boundaries cannot split
/// graphemes.
pub struct TextLayout {
    rows: Vec<Vec<Glyph>>,
}

/// The glyphs of a row.
pub open spec fn glyphs_view(row: Seq<Glyph>) -> Seq<GlyphView> {
    row.map_values(|g: Glyph| g@)
}

/// The glyphs of each row.
pub open spec fn rows_view(rows: Seq<Vec<Glyph>>) -> Seq<Seq<GlyphView>> {
    rows.map_values(|r: Vec<Glyph>| glyphs_view(r@))
}

impl View for TextLayout {
    type V = Seq<Seq<GlyphView>>;

    closed spec fn view(&self) -> Seq<Seq<GlyphView>> {
        rows_view(self.rows@)
    }
}

/// A row's columns are never negative.
proof fn row_width_nonneg(row: Seq<GlyphView>)
    ensures
        row_width(row) >= 0,
    decreases row.len(),
{
    if row.len() > 0 {
        row_width_nonneg(row.drop_last());
    }
}

/// The columns a row of glyphs takes, saturating.
fn width_of(row: &Vec<Glyph>) -> (w: usize)
    ensures
        w == sat(row_width(glyphs_view(row@))),
{
    let ghost gv = glyphs_view(row@);
    let mut w: usize = 0;
    let mut i: usize = 0;
    while i < row.len()
        invariant
            i <= row@.len(),
            gv == glyphs_view(row@),
            w == sat(row_width(gv.take(i as int))),
        decreases row@.len() - i,
    {
        proof {
            assert(gv.take(i + 1).drop_last() =~= gv.take(i as int));
            assert(gv.take(i + 1).last() == row@[i as int]@);
            row_width_nonneg(gv.take(i as int));
        }
        w = w.saturating_add(row[i].width);
        i = i + 1;
    }
    assert(gv.take(row@.len() as int) =~= gv);
    w
}

/// The last whitespace glyph lies in the row.
proof fn last_space_in(row: Seq<GlyphView>)
    ensures
        last_space(row) matches Some(i) ==> 0 <= i < row.len(),
    decreases row.len(),
{
    if row.len() > 0 && !row.last().whitespace {
        last_space_in(row.drop_last());
    }
}

/// The last whitespace glyph of a row.
fn last_space_of(row: &Vec<Glyph>) -> (r: Option<usize>)
    ensures
        match r {
            Some(i) => last_space(glyphs_view(row@)) == Some(i as int),
            None => last_space(glyphs_view(row@)) is None,
        },
{
    let ghost gv = glyphs_view(row@);
    let mut k = row.len();
    assert(gv.take(k as int) =~= gv);
    while k > 0
        invariant
            k <= row@.len(),
            gv == glyphs_view(row@),
            last_space(gv) == last_space(gv.take(k as int)),
        decreases k,
    {
        assert(gv.take(k as int).last() == row@[k - 1]@);
        if row[k - 1].whitespace {
            return Some(k - 1);
        }
        assert(gv.take(k as int).drop_last() =~= gv.take(k - 1));
        k = k - 1;
    }
    None
}

/// What rows laid out so far hold.
pub open spec fn lines_view(rows: Seq<Vec<Glyph>>, row: Seq<Glyph>, columns: usize) -> Lines {
    Lines { rows: rows_view(rows), row: glyphs_view(row), columns: columns as nat }
}

/// Place one grapheme on the rows laid out so far.
fn place_glyph(
    rows: &mut Vec<Vec<Glyph>>,
    row: &mut Vec<Glyph>,
    columns: &mut usize,
    g: &String,
    style: Style,
    limit: usize,
    word: bool,
)
    ensures
        lines_view(final(rows)@, final(row)@, *final(columns)) == place(
            lines_view(old(rows)@, old(row)@, *old(columns)),
            g@,
            style,
            limit as nat,
            word,
        ),
{
    let ghost s = lines_view(rows@, row@, *columns);
    let text = g.as_str();
    let len = text.unicode_len();
    let newline = if len == 1 {
        text.get_char(0) == '\n'
    } else if len == 2 {
        text.get_char(0) == '\r' && text.get_char(1) == '\n'
    } else {
        false
    };
    proof {
        if len == 1 && newline {
            assert(g@ =~= seq!['\n']);
        }
        if len == 2 && newline {
            assert(g@ =~= seq!['\r', '\n']);
        }
        if is_newline(g@) {
            assert(g@ == seq!['\n'] ==> g@.len() == 1 && g@[0] == '\n');
            assert(g@ == seq!['\r', '\n'] ==> g@.len() == 2 && g@[0] == '\r' && g@[1] == '\n');
        }
    }
    if newline {
        let mut done: Vec<Glyph> = Vec::new();
        std::mem::swap(row, &mut done);
        rows.push(done);
        *columns = 0;
        assert(rows_view(rows@) =~= s.rows.push(s.row));
        assert(glyphs_view(row@) =~= Seq::<GlyphView>::empty());
        return;
    }
    if !is_control_free(text) {
        return;
    }
    let n = text_width(text);
    if n > limit {
        return;
    }
    if columns.saturating_add(n) > limit && row.len() > 0 {
        let split = if word {
            last_space_of(row)
        } else {
            None
        };
        match split {
            Some(i) => {
                proof {
                    last_space_in(glyphs_view(row@));
                }
                let ghost before = row@;
                let mut tail = row.split_off(i + 1);
                std::mem::swap(row, &mut tail);
                rows.push(tail);
                *columns = width_of(row);
                assert(glyphs_view(row@) =~= s.row.skip(i + 1));
                assert(glyphs_view(before.take(i + 1)) =~= s.row.take(i + 1));
                assert(rows_view(rows@) =~= s.rows.push(s.row.take(i + 1)));
                if columns.saturating_add(n) > limit {
                    let ghost pushed = rows@;
                    let mut carried: Vec<Glyph> = Vec::new();
                    std::mem::swap(row, &mut carried);
                    rows.push(carried);
                    *columns = 0;
                    assert(rows_view(rows@) =~= rows_view(pushed).push(s.row.skip(i + 1)));
                    assert(glyphs_view(row@) =~= Seq::<GlyphView>::empty());
                }
            },
            None => {
                let mut done: Vec<Glyph> = Vec::new();
                std::mem::swap(row, &mut done);
                rows.push(done);
                *columns = 0;
                assert(rows_view(rows@) =~= s.rows.push(s.row));
                assert(glyphs_view(row@) =~= Seq::<GlyphView>::empty());
            },
        }
    }
    let ghost mid = row@;
    let whitespace = is_all_whitespace(text);
    row.push(Glyph { text: g.clone(), style, width: n, whitespace });
    assert(glyphs_view(row@) =~= glyphs_view(mid).push(
        GlyphView { text: g@, style, width: n as nat, whitespace },
    ));
    *columns = columns.saturating_add(n);
}

/// The style of the span holding the character at `offset`.
fn style_at_offset(spans: &[Span], offset: usize) -> (s: Style)
    ensures
        s == style_at(spans@.map_values(|s: Span| s@), offset as int),
{
    let ghost sv = spans@.map_values(|s: Span| s@);
    let mut k: usize = 0;
    let mut rest = offset;
    assert(sv.skip(0) =~= sv);
    while k < spans.len()
        invariant
            k <= spans@.len(),
            sv == spans@.map_values(|s: Span| s@),
            style_at(sv, offset as int) == style_at(sv.skip(k as int), rest as int),
        decreases spans@.len() - k,
    {
        let n = spans[k].text.as_str().unicode_len();
        assert(sv.skip(k as int)[0] == spans@[k as int]@);
        if n > rest {
            return spans[k].style;
        }
        assert(sv.skip(k as int).drop_first() =~= sv.skip(k + 1));
        rest = rest - n;
        k = k + 1;
    }
    Style::default()
}

/// Characters before the `i`th grapheme never outnumber the text's.
proof fn prefix_len(gs: Seq<Seq<char>>, i: int)
    requires
        0 <= i <= gs.len(),
    ensures
        gs.take(i).flatten().len() <= gs.flatten().len(),
    decreases gs.len() - i,
{
    if i < gs.len() {
        prefix_len(gs, i + 1);
        assert(gs.take(i + 1) =~= gs.take(i).push(gs[i]));
        gs.take(i).lemma_flatten_push(gs[i]);
    } else {
        assert(gs.take(i) =~= gs);
    }
}

impl TextLayout {
    pub fn new(spans: &[Span], width: Option<u16>, wrap: Wrap) -> (t: Self)
        ensures
            t@ == layout_spec(spans@.map_values(|s: Span| s@), width, wrap),
    {
        let ghost sv = spans@.map_values(|s: Span| s@);
        let mut text = String::new();
        let mut k: usize = 0;
        while k < spans.len()
            invariant
                k <= spans@.len(),
                sv == spans@.map_values(|s: Span| s@),
                text@ == sv.take(k as int).map_values(|s: SpanView| s.text).flatten(),
            decreases spans@.len() - k,
        {
            push_str(&mut text, spans[k].text.as_str());
            proof {
                let t = sv.take(k as int).map_values(|s: SpanView| s.text);
                assert(sv.take(k + 1).map_values(|s: SpanView| s.text) =~= t.push(sv[k as int].text));
                t.lemma_flatten_push(sv[k as int].text);
            }
            k = k + 1;
        }
        assert(sv.take(spans@.len() as int) =~= sv);
        let limit: usize = if wrap == Wrap::Off {
            usize::MAX
        } else {
            match width {
                Some(w) => w as usize,
                None => usize::MAX,
            }
        };
        let word = wrap == Wrap::Word;
        let total = text.as_str().unicode_len();
        let gs = graphemes(text.as_str());
        let ghost gv = gs@.map_values(|g: String| g@);
        let mut rows: Vec<Vec<Glyph>> = Vec::new();
        let mut row: Vec<Glyph> = Vec::new();
        let mut columns: usize = 0;
        let mut offset: usize = 0;
        let mut i: usize = 0;
        assert(lines_view(rows@, row@, columns) =~= lay(sv, gv, limit as nat, word, 0));
        while i < gs.len()
            invariant
                i <= gs@.len(),
                gv == gs@.map_values(|g: String| g@),
                gv.flatten() == text@,
                total == text@.len(),
                sv == spans@.map_values(|s: Span| s@),
                gv == grapheme_clusters(content(sv)),
                text@ == content(sv),
                limit == limit_of(width, wrap),
                word == (wrap == Wrap::Word),
                offset == gv.take(i as int).flatten().len(),
                lines_view(rows@, row@, columns) == lay(sv, gv, limit as nat, word, i as int),
            decreases gs@.len() - i,
        {
            let style = style_at_offset(spans, offset);
            place_glyph(&mut rows, &mut row, &mut columns, &gs[i], style, limit, word);
            proof {
                assert(gv[i as int] == gs@[i as int]@);
                assert(gv.take(i + 1) =~= gv.take(i as int).push(gv[i as int]));
                gv.take(i as int).lemma_flatten_push(gv[i as int]);
                prefix_len(gv, i + 1);
            }
            offset = offset + gs[i].as_str().unicode_len();
            i = i + 1;
        }
        rows.push(row);
        let t = TextLayout { rows };
        proof {
            let end = lay(sv, gv, limit as nat, word, gv.len() as int);
            assert(t@ =~= end.rows.push(end.row));
        }
        t
    }
}

/// The widest row's columns.
pub open spec fn widest(rows: Seq<Seq<GlyphView>>) -> int
    decreases rows.len(),
{
    if rows.len() == 0 {
        0
    } else {
        let w = row_width(rows.last());
        let rest = widest(rows.drop_last());
        if w > rest {
            w
        } else {
            rest
        }
    }
}

/// A number kept to the largest `u16`.
pub open spec fn cap16(n: int) -> int {
    if n > u16::MAX {
        u16::MAX as int
    } else {
        n
    }
}

/// The glyphs of a row written left to right on local row `y` from column
/// `x`, each after the one before.
pub open spec fn paint_row(
    b: BufferView,
    origin: (i32, i32),
    clip: crate::geometry::Rect,
    row: Seq<GlyphView>,
    y: i32,
    x: i32,
    j: int,
) -> BufferView
    decreases row.len() - j,
{
    if j < 0 || j >= row.len() {
        b
    } else {
        paint_row(
            canvas_text(b, origin, clip, x, y, row[j].text, row[j].style),
            origin,
            clip,
            row,
            y,
            sat_i32(x + row[j].width),
            j + 1,
        )
    }
}

/// Rows from `y` up to `limit` painted, each on its own local row.
pub open spec fn paint_rows(
    b: BufferView,
    origin: (i32, i32),
    clip: crate::geometry::Rect,
    rows: Seq<Seq<GlyphView>>,
    y: int,
    limit: int,
) -> BufferView
    decreases limit - y,
{
    if y < 0 || y >= limit || y >= rows.len() {
        b
    } else {
        paint_rows(paint_row(b, origin, clip, rows[y], y as i32, 0, 0), origin, clip, rows, y + 1, limit)
    }
}

impl TextLayout {
    /// The widest row's columns and the number of rows, each at most the
    /// largest `u16`.
    pub fn size(&self) -> (s: (u16, u16))
        ensures
            s.0 == cap16(widest(self@)),
            s.1 == cap16(self@.len() as int),
    {
        let ghost rv = self@;
        let mut widest_so_far: usize = 0;
        let mut i: usize = 0;
        while i < self.rows.len()
            invariant
                i <= self.rows@.len(),
                rv == rows_view(self.rows@),
                widest_so_far == sat(widest(rv.take(i as int))),
            decreases self.rows@.len() - i,
        {
            let w = width_of(&self.rows[i]);
            proof {
                assert(rv.take(i + 1).drop_last() =~= rv.take(i as int));
                assert(rv.take(i + 1).last() == glyphs_view(self.rows@[i as int]@));
                row_width_nonneg(rv[i as int]);
                widest_nonneg(rv.take(i as int));
            }
            if w > widest_so_far {
                widest_so_far = w;
            }
            i = i + 1;
        }
        proof {
            assert(rv.take(self.rows@.len() as int) =~= rv);
            widest_nonneg(rv);
        }
        let width: u16 = if widest_so_far > 65535 { 65535 } else { widest_so_far as u16 };
        let height: u16 = if self.rows.len() > 65535 { 65535 } else { self.rows.len() as u16 };
        (width, height)
    }

    /// Paint the rows that fit the canvas's height, each glyph after the one
    /// before.
    pub fn paint(&self, canvas: &mut Canvas<'_>)
        requires
            old(canvas).frame().wf(),
        ensures
            final(canvas).frame() == paint_rows(
                old(canvas).frame(),
                old(canvas).origin_spec(),
                old(canvas).clip_spec(),
                self@,
                0,
                old(canvas).size_spec().1 as int,
            ),
            final(canvas).frame().wf(),
            final(canvas).origin_spec() == old(canvas).origin_spec(),
            final(canvas).clip_spec() == old(canvas).clip_spec(),
            final(canvas).size_spec() == old(canvas).size_spec(),
            final(canvas).focused_spec() == old(canvas).focused_spec(),
    {
        let ghost rv = self@;
        let ghost origin = canvas.origin_spec();
        let ghost clip = canvas.clip_spec();
        let ghost total = paint_rows(canvas.frame(), origin, clip, rv, 0, canvas.size_spec().1 as int);
        let limit = canvas.size().1;
        let mut y: usize = 0;
        while y < self.rows.len() && y < limit as usize
            invariant
                rv == rows_view(self.rows@),
                limit == canvas.size_spec().1,
                limit == old(canvas).size_spec().1,
                origin == canvas.origin_spec(),
                clip == canvas.clip_spec(),
                canvas.origin_spec() == old(canvas).origin_spec(),
                canvas.clip_spec() == old(canvas).clip_spec(),
                canvas.size_spec() == old(canvas).size_spec(),
                canvas.focused_spec() == old(canvas).focused_spec(),
                canvas.frame().wf(),
                paint_rows(canvas.frame(), origin, clip, rv, y as int, limit as int) == total,
            decreases self.rows@.len() - y,
        {
            let row = &self.rows[y];
            let ghost r = rv[y as int];
            assert(r == glyphs_view(row@));
            let mut x: i32 = 0;
            let mut j: usize = 0;
            while j < row.len()
                invariant
                    j <= row@.len(),
                    0 <= x,
                    r == glyphs_view(row@),
                    y < limit,
                    y < rv.len(),
                    rv == rows_view(self.rows@),
                    limit == canvas.size_spec().1,
                    origin == canvas.origin_spec(),
                    clip == canvas.clip_spec(),
                    canvas.origin_spec() == old(canvas).origin_spec(),
                    canvas.clip_spec() == old(canvas).clip_spec(),
                    canvas.size_spec() == old(canvas).size_spec(),
                    canvas.focused_spec() == old(canvas).focused_spec(),
                    canvas.frame().wf(),
                    paint_rows(
                        paint_row(canvas.frame(), origin, clip, r, y as i32, x, j as int),
                        origin,
                        clip,
                        rv,
                        y + 1,
                        limit as int,
                    ) == total,
                decreases row@.len() - j,
            {
                let glyph = &row[j];
                assert(r[j as int] == glyph@);
                canvas.text(x, y as i32, glyph.text.as_str(), glyph.style);
                let w: i32 = if glyph.width > 2147483647 { 2147483647 } else { glyph.width as i32 };
                let ghost before = x;
                x = sat_add(x, w);
                proof {
                    assert(x == sat_i32(before + glyph.width));
                }
                j = j + 1;
            }
            y = y + 1;
        }
    }
}

/// The widest row's columns are never negative.
proof fn widest_nonneg(rows: Seq<Seq<GlyphView>>)
    ensures
        widest(rows) >= 0,
    decreases rows.len(),
{
    if rows.len() > 0 {
        widest_nonneg(rows.drop_last());
    }
}

/// Every row of `rows` takes at most `limit` columns.
pub open spec fn all_fit(rows: Seq<Seq<GlyphView>>, limit: int) -> bool {
    forall|k: int| 0 <= k < rows.len() ==> row_width(#[trigger] rows[k]) <= limit
}

/// A row that fits joins rows that fit.
proof fn fit_push(rows: Seq<Seq<GlyphView>>, row: Seq<GlyphView>, limit: int)
    requires
        all_fit(rows, limit),
        row_width(row) <= limit,
    ensures
        all_fit(rows.push(row), limit),
{
    assert forall|k: int| 0 <= k < rows.push(row).len() implies row_width(#[trigger] rows.push(row)[k])
        <= limit by {
        if k < rows.len() {
            assert(rows.push(row)[k] == rows[k]);
        }
    }
}

/// A row's columns are those of its start and of the rest.
proof fn row_width_split(row: Seq<GlyphView>, k: int)
    requires
        0 <= k <= row.len(),
    ensures
        row_width(row) == row_width(row.take(k)) + row_width(row.skip(k)),
        row_width(row.take(k)) >= 0,
        row_width(row.skip(k)) >= 0,
    decreases row.len(),
{
    if k == row.len() {
        assert(row.take(k) =~= row);
        assert(row.skip(k) =~= Seq::<GlyphView>::empty());
        row_width_nonneg(row);
    } else {
        row_width_split(row.drop_last(), k);
        assert(row.drop_last().take(k) =~= row.take(k));
        assert(row.skip(k).drop_last() =~= row.drop_last().skip(k));
        assert(row.skip(k).last() == row.last());
    }
}

/// Wrapping keeps each row laid out so far within the limit, and counts
/// the columns of the row being filled exactly.
proof fn lay_fits(spans: Seq<SpanView>, gs: Seq<Seq<char>>, limit: nat, word: bool, i: int)
    requires
        limit <= u16::MAX,
    ensures
        ({
            let s = lay(spans, gs, limit, word, i);
            &&& s.columns == row_width(s.row)
            &&& row_width(s.row) <= limit
            &&& all_fit(s.rows, limit as int)
        }),
    decreases i,
{
    if i > 0 && i <= gs.len() {
        lay_fits(spans, gs, limit, word, i - 1);
        let s = lay(spans, gs, limit, word, i - 1);
        let g = gs[i - 1];
        let style = style_at(spans, gs.take(i - 1).flatten().len() as int);
        let n = str_width(g);
        let glyph = GlyphView { text: g, style, width: n, whitespace: all_whitespace(g) };
        row_width_nonneg(s.row);
        let t = lay(spans, gs, limit, word, i);
        assert(t == place(s, g, style, limit, word));
        if is_newline(g) {
            fit_push(s.rows, s.row, limit as int);
            assert(row_width(t.row) == 0);
        } else if control_free(g) && n <= limit {
            let split = if word { last_space(s.row) } else { None };
            if sat(s.columns + n as int) > limit && s.row.len() > 0 && split is Some {
                let k = split->0;
                last_space_in(s.row);
                row_width_split(s.row, k + 1);
                let head = s.row.take(k + 1);
                let tail = s.row.skip(k + 1);
                fit_push(s.rows, head, limit as int);
                if sat(sat(row_width(tail)) + n as int) > limit {
                    fit_push(s.rows.push(head), tail, limit as int);
                    assert(Seq::<GlyphView>::empty().push(glyph).drop_last() =~= Seq::<GlyphView>::empty());
                    assert(t.row == Seq::<GlyphView>::empty().push(glyph));
                    assert(t.row.last() == glyph);
                    assert(row_width(t.row.drop_last()) == 0);
                    assert(row_width(t.row) == n);
                } else {
                    assert(tail.push(glyph).drop_last() =~= tail);
                    assert(t.row == tail.push(glyph));
                    assert(row_width(t.row) == row_width(tail) + n);
                }
            } else if sat(s.columns + n as int) > limit && s.row.len() > 0 {
                fit_push(s.rows, s.row, limit as int);
                assert(Seq::<GlyphView>::empty().push(glyph).drop_last() =~= Seq::<GlyphView>::empty());
                assert(t.row == Seq::<GlyphView>::empty().push(glyph));
                assert(t.row.last() == glyph);
                assert(row_width(t.row.drop_last()) == 0);
                assert(row_width(t.row) == n);
                assert(t.columns == n);
            } else {
                assert(s.row.push(glyph).drop_last() =~= s.row);
                assert(t.row == s.row.push(glyph));
                assert(row_width(t.row) == row_width(s.row) + n);
                assert(s.columns + n <= limit);
                assert(t.columns == s.columns + n);
                assert(t.rows == s.rows);
            }
        } else {
            assert(t == s);
        }
        assert(t.columns == row_width(t.row));
        assert(row_width(t.row) <= limit);
        assert(all_fit(t.rows, limit as int));
    } else {
        assert(row_width(Seq::<GlyphView>::empty()) == 0);
    }
}

/// Character wrapping to a width never makes a row wider than it: a
/// grapheme that does not fit starts the next row, and one wider than a
/// row is left out.
pub proof fn character_wrap_fits(spans: Seq<SpanView>, width: u16)
    ensures
        all_fit(layout_spec(spans, Some(width), Wrap::Character), width as int),
{
    let gs = grapheme_clusters(content(spans));
    lay_fits(spans, gs, width as nat, false, gs.len() as int);
    let end = lay(spans, gs, width as nat, false, gs.len() as int);
    assert forall|k: int| 0 <= k < end.rows.push(end.row).len() implies row_width(
        #[trigger] end.rows.push(end.row)[k],
    ) <= width by {
        if k < end.rows.len() {
            assert(end.rows.push(end.row)[k] == end.rows[k]);
        }
    }
}

/// Word wrapping to a width never makes a row wider than it: rows break
/// after their last whitespace, a word that still does not fit breaks as
/// character wrapping would, and a grapheme wider than a row is left out.
pub proof fn word_wrap_fits(spans: Seq<SpanView>, width: u16)
    ensures
        all_fit(layout_spec(spans, Some(width), Wrap::Word), width as int),
{
    let gs = grapheme_clusters(content(spans));
    lay_fits(spans, gs, width as nat, true, gs.len() as int);
    let end = lay(spans, gs, width as nat, true, gs.len() as int);
    fit_push(end.rows, end.row, width as int);
}

} // verus!
