//! Multiline editing with a cursor-following viewport and optional soft wrapping.
use crate::buffer::{plain_style, BufferView, CursorShape, Style};
use crate::canvas::{canvas_cursor, canvas_text, Canvas};
use crate::editor::{fresh, Editor, EditorView};
use crate::element::Element;
use crate::elements::input::{less, prefix_len, selected_style, sum_cols, to_i32};
use crate::event::{Event, Response};
use crate::geometry::Rect;
use crate::scan::{all_whitespace, is_all_whitespace};
use crate::text::{clean, clean_spec, edit, edit_spec};
use crate::unicode::{chars_of, grapheme_clusters, graphemes, push_char, str_width, text_width};
use vstd::prelude::*;

verus! {

/// A multiline editor. The viewport follows the cursor. With `wrap`, lines
/// break at words to fit the width; without it, long lines scroll
/// horizontally.
pub struct Textarea {
    pub editor: Editor,
    pub style: Style,
    /// Drawn over `style` for atoms, indivisible tokens; the editor here
    /// keeps none, so nothing is drawn with it.
    pub atom: Style,
    /// Shown while the value is empty, with the cursor at its start when focused.
    pub placeholder: String,
    pub wrap: bool,
    pub cursor: CursorShape,
}

/// What a text area holds: its editor, the row and column its display
/// starts at, and how it looks.
pub struct TextareaView {
    pub editor: EditorView,
    pub top: nat,
    pub left: nat,
    pub style: Style,
    pub atom: Style,
    pub placeholder: Seq<char>,
    pub wrap: bool,
    pub cursor: CursorShape,
}

impl View for Textarea {
    type V = TextareaView;

    open spec fn view(&self) -> TextareaView {
        TextareaView {
            editor: self.editor@,
            top: self.editor.scroll().0,
            left: self.editor.scroll().1,
            style: self.style,
            atom: self.atom,
            placeholder: self.placeholder@,
            wrap: self.wrap,
            cursor: self.cursor,
        }
    }
}

/// A displayed row: its first character, the character just past it, and
/// the same for its graphemes.
pub type Row = (nat, nat, nat, nat);

/// Rows laid out so far: the finished rows, where the open row starts in
/// characters and graphemes, its columns, and, after its last whitespace,
/// where a word break would put the next row.
pub struct RowState {
    pub rows: Seq<Row>,
    pub start: nat,
    pub first: nat,
    pub cols: nat,
    pub brk: Option<(nat, nat, nat)>,
}

/// The character start of grapheme `i`.
pub open spec fn gstart(gs: Seq<Seq<char>>, i: int) -> nat {
    gs.take(i).flatten().len()
}

/// Add grapheme `i`, `n` cells wide and starting at character `at`, to the
/// rows. A newline ends the row. Past the width `limit`, the row breaks
/// after its last whitespace, or, with none or where what follows it would
/// still not fit, before the grapheme.
pub open spec fn row_step(st: RowState, g: Seq<char>, i: nat, at: nat, n: nat, limit: Option<nat>) -> RowState {
    if g == seq!['\n'] {
        RowState { rows: st.rows.push((st.start, at, st.first, i)), start: at + 1, first: i + 1, cols: 0, brk: None }
    } else {
        let st2 = match limit {
            Some(w) => if st.cols + n > w && st.cols > 0 {
                match st.brk {
                    Some(b) => if less(st.cols, b.1) + n > w {
                        RowState {
                            rows: st.rows.push((st.start, b.0, st.first, b.2)).push((b.0, at, b.2, i)),
                            start: at,
                            first: i,
                            cols: 0,
                            brk: None,
                        }
                    } else {
                        RowState {
                            rows: st.rows.push((st.start, b.0, st.first, b.2)),
                            start: b.0,
                            first: b.2,
                            cols: less(st.cols, b.1),
                            brk: None,
                        }
                    },
                    None => RowState { rows: st.rows.push((st.start, at, st.first, i)), start: at, first: i, cols: 0, brk: None },
                }
            } else {
                st
            },
            None => st,
        };
        let cols = sum_cols(st2.cols, n);
        RowState {
            cols,
            brk: if all_whitespace(g) {
                Some((at + g.len(), cols, i + 1))
            } else {
                st2.brk
            },
            ..st2
        }
    }
}

/// The rows of graphemes `gs`, the first of them grapheme `i` starting at
/// character `at`, continuing the rows `st`; the last row ends the text.
pub open spec fn rows_from(gs: Seq<Seq<char>>, i: nat, at: nat, st: RowState, limit: Option<nat>) -> Seq<Row>
    decreases gs.len() - i,
{
    if i >= gs.len() {
        st.rows.push((st.start, at, st.first, i))
    } else {
        rows_from(gs, i + 1, at + gs[i as int].len(), row_step(st, gs[i as int], i, at, str_width(gs[i as int]), limit), limit)
    }
}

/// The rows of a text, broken to fit `limit` columns where there is one.
pub open spec fn text_rows(text: Seq<char>, limit: Option<nat>) -> Seq<Row> {
    rows_from(grapheme_clusters(text), 0, 0, RowState { rows: Seq::empty(), start: 0, first: 0, cols: 0, brk: None }, limit)
}

/// The width limit for an area `width` cells wide: at least one cell when
/// wrapping, none otherwise.
pub open spec fn wrap_limit(wrap: bool, width: u16) -> Option<nat> {
    if wrap {
        Some(if width == 0 { 1 } else { width as nat })
    } else {
        None
    }
}

/// The columns of graphemes `i..end`, from `col`.
pub open spec fn span_cols(gs: Seq<Seq<char>>, i: nat, end: nat, col: nat) -> nat
    decreases end - i,
{
    if i >= end || i >= gs.len() {
        col
    } else {
        span_cols(gs, i + 1, end, sum_cols(col, str_width(gs[i as int])))
    }
}

/// The widest of rows `r..`, at least `w`.
pub open spec fn widest_row(gs: Seq<Seq<char>>, rows: Seq<Row>, r: nat, w: nat) -> nat
    decreases rows.len() - r,
{
    if r >= rows.len() {
        w
    } else {
        let c = span_cols(gs, rows[r as int].2, rows[r as int].3, 0);
        widest_row(gs, rows, r + 1, if c > w { c } else { w })
    }
}

/// The row of a cursor: the last whose start is at or before it.
pub open spec fn row_from(rows: Seq<Row>, c: nat, r: nat) -> nat
    decreases rows.len() - r,
{
    if r + 1 < rows.len() && rows[(r + 1) as int].0 <= c {
        row_from(rows, c, r + 1)
    } else {
        r
    }
}

/// The cursor's column in its row: the cells of the row's graphemes that
/// start before it.
pub open spec fn cursor_cols(gs: Seq<Seq<char>>, i: nat, cursor: nat, col: nat) -> nat
    decreases gs.len() - i,
{
    if i >= gs.len() || gstart(gs, i as int) >= cursor {
        col
    } else {
        cursor_cols(gs, i + 1, cursor, sum_cols(col, str_width(gs[i as int])))
    }
}

/// How a text area's rows are painted.
pub struct AreaLook {
    pub style: Style,
    pub selection: (nat, nat),
    pub focused: bool,
    pub top: nat,
    pub left: nat,
    pub width: nat,
}

/// Whether the character at `at` is shown selected.
pub open spec fn marked(look: AreaLook, at: nat) -> bool {
    look.focused && look.selection.0 <= at && at < look.selection.1
}

/// Painting graphemes `i..end` of row `y` from column `x`, each where it
/// starts, reversed where selected, until a grapheme starts past the right
/// edge; also gives the column reached.
pub open spec fn row_paint(
    b: BufferView,
    origin: (i32, i32),
    clip: Rect,
    gs: Seq<Seq<char>>,
    i: nat,
    end: nat,
    x: nat,
    look: AreaLook,
    y: nat,
) -> (BufferView, nat)
    decreases end - i,
{
    if i >= end || i >= gs.len() || x >= look.left + look.width {
        (b, x)
    } else {
        let g = gs[i as int];
        let b2 = canvas_text(
            b,
            origin,
            clip,
            (to_i32(x) - to_i32(look.left)) as i32,
            (y - look.top) as i32,
            g,
            selected_style(look.style, marked(look, gstart(gs, i as int))),
        );
        row_paint(b2, origin, clip, gs, i + 1, end, sum_cols(x, str_width(g)), look, y)
    }
}

/// Painting rows `y..stop`: each row's graphemes, then a selected line
/// break after it as one reversed cell.
pub open spec fn rows_paint(
    b: BufferView,
    origin: (i32, i32),
    clip: Rect,
    text: Seq<char>,
    gs: Seq<Seq<char>>,
    rows: Seq<Row>,
    y: nat,
    stop: nat,
    look: AreaLook,
) -> BufferView
    decreases stop - y,
{
    if y >= stop || y >= rows.len() {
        b
    } else {
        let row = rows[y as int];
        let (b1, x) = row_paint(b, origin, clip, gs, row.2, row.3, 0, look, y);
        let b2 = if row.1 < text.len() && text[row.1 as int] == '\n' && marked(look, row.1) {
            canvas_text(
                b1,
                origin,
                clip,
                (to_i32(x) - to_i32(look.left)) as i32,
                (y - look.top) as i32,
                seq![' '],
                Style { reverse: true, ..look.style },
            )
        } else {
            b1
        };
        rows_paint(b2, origin, clip, text, gs, rows, y + 1, stop, look)
    }
}

/// The frame after painting text area `v`: the placeholder while the value
/// is empty, the rows from its display's first row and column, and, when
/// focused, the cursor and its look.
pub open spec fn textarea_frame(
    v: TextareaView,
    b: BufferView,
    origin: (i32, i32),
    size: (u16, u16),
    clip: Rect,
    focused: bool,
) -> BufferView {
    let text = v.editor.text;
    let b0 = if text.len() == 0 {
        canvas_text(b, origin, clip, 0, 0, v.placeholder, v.style)
    } else {
        b
    };
    let gs = grapheme_clusters(text);
    let rows = text_rows(text, wrap_limit(v.wrap, size.0));
    let look = AreaLook {
        style: v.style,
        selection: v.editor.selection(),
        focused,
        top: v.top,
        left: v.left,
        width: size.0 as nat,
    };
    let stop: nat = if v.top + size.1 < rows.len() { (v.top + size.1) as nat } else { rows.len() };
    let b1 = rows_paint(b0, origin, clip, text, gs, rows, v.top, stop, look);
    if focused {
        let row = row_from(rows, v.editor.cursor, 0);
        let col = cursor_cols(gs, rows[row as int].2, v.editor.cursor, 0);
        let x = if less(col, v.left) < less(size.0 as nat, 1) { less(col, v.left) } else { less(size.0 as nat, 1) };
        BufferView {
            shape: v.cursor,
            ..canvas_cursor(b1, origin, clip, to_i32(x), (to_i32(row) - to_i32(v.top)) as i32)
        }
    } else {
        b1
    }
}

/// A row in numbers the program holds.
pub open spec fn row_of(r: (usize, usize, usize, usize)) -> Row {
    (r.0 as nat, r.1 as nat, r.2 as nat, r.3 as nat)
}

/// The break point of an open row, in numbers the program holds.
pub open spec fn brk_of(b: Option<(usize, usize, usize)>) -> Option<(nat, nat, nat)> {
    match b {
        Some(b) => Some((b.0 as nat, b.1 as nat, b.2 as nat)),
        None => None,
    }
}

/// A width limit in numbers the program holds.
pub open spec fn limit_of(l: Option<usize>) -> Option<nat> {
    match l {
        Some(w) => Some(w as nat),
        None => None,
    }
}

/// Laying out rows adds to those already laid out.
proof fn rows_grow(gs: Seq<Seq<char>>, i: nat, at: nat, st: RowState, limit: Option<nat>)
    ensures
        rows_from(gs, i, at, st, limit).len() >= st.rows.len() + 1,
    decreases gs.len() - i,
{
    if i < gs.len() {
        let st2 = row_step(st, gs[i as int], i, at, str_width(gs[i as int]), limit);
        assert(st2.rows.len() >= st.rows.len());
        rows_grow(gs, i + 1, at + gs[i as int].len(), st2, limit);
    }
}

/// The rows of graphemes `gs`, whose characters number `total`, broken to
/// fit `limit` columns where there is one.
fn layout_rows(gs: &Vec<String>, limit: Option<usize>, total: usize) -> (rows: Vec<(usize, usize, usize, usize)>)
    requires
        total == gs@.map_values(|g: String| g@).flatten().len(),
    ensures
        rows@.map_values(|r: (usize, usize, usize, usize)| row_of(r)) == rows_from(
            gs@.map_values(|g: String| g@),
            0,
            0,
            RowState { rows: Seq::empty(), start: 0, first: 0, cols: 0, brk: None },
            limit_of(limit),
        ),
        rows@.len() >= 1,
{
    let ghost gv = gs@.map_values(|g: String| g@);
    let ghost lim = limit_of(limit);
    let ghost init = RowState { rows: Seq::empty(), start: 0, first: 0, cols: 0, brk: None };
    let ghost target = rows_from(gv, 0, 0, init, lim);
    proof {
        rows_grow(gv, 0, 0, init, lim);
    }
    let mut rows: Vec<(usize, usize, usize, usize)> = Vec::new();
    let mut start: usize = 0;
    let mut first: usize = 0;
    let mut cols: usize = 0;
    let mut brk: Option<(usize, usize, usize)> = None;
    let mut at: usize = 0;
    let mut i: usize = 0;
    assert(gv.take(0) =~= Seq::<Seq<char>>::empty());
    assert(rows@.map_values(|r: (usize, usize, usize, usize)| row_of(r)) =~= Seq::<Row>::empty());
    while i < gs.len()
        invariant
            i <= gs@.len(),
            gv == gs@.map_values(|g: String| g@),
            lim == limit_of(limit),
            total == gv.flatten().len(),
            at == gv.take(i as int).flatten().len(),
            at <= total,
            rows_from(
                gv,
                i as nat,
                at as nat,
                RowState {
                    rows: rows@.map_values(|r: (usize, usize, usize, usize)| row_of(r)),
                    start: start as nat,
                    first: first as nat,
                    cols: cols as nat,
                    brk: brk_of(brk),
                },
                lim,
            ) == target,
            target.len() >= 1,
        decreases gs@.len() - i,
    {
        proof {
            prefix_len(gv, i as int);
        }
        let g = &gs[i];
        assert(gv[i as int] == g@);
        let len = g.unicode_len();
        let n = text_width(g.as_str());
        let ghost before = rows@.map_values(|r: (usize, usize, usize, usize)| row_of(r));
        let newline = len == 1 && g.as_str().get_char(0) == '\n';
        if newline {
            assert(g@ =~= seq!['\n']);
            rows.push((start, at, first, i));
            assert(rows@.map_values(|r: (usize, usize, usize, usize)| row_of(r)) =~= before.push(
                (start as nat, at as nat, first as nat, i as nat),
            ));
            start = at + 1;
            first = i + 1;
            cols = 0;
            brk = None;
        } else {
            assert(g@ != seq!['\n']) by {
                if g@ == seq!['\n'] {
                    assert(g@.len() == 1);
                    assert(g@[0] == '\n');
                }
            }
            match limit {
                Some(w) => {
                    if (cols > w || n > w - cols) && cols > 0 {
                        match brk {
                            Some(b) => {
                                let tail = cols.saturating_sub(b.1);
                                if tail > w || n > w - tail {
                                    rows.push((start, b.0, first, b.2));
                                    rows.push((b.0, at, b.2, i));
                                    assert(rows@.map_values(|r: (usize, usize, usize, usize)| row_of(r)) =~= before.push(
                                        (start as nat, b.0 as nat, first as nat, b.2 as nat),
                                    ).push((b.0 as nat, at as nat, b.2 as nat, i as nat)));
                                    start = at;
                                    first = i;
                                    cols = 0;
                                } else {
                                    rows.push((start, b.0, first, b.2));
                                    assert(rows@.map_values(|r: (usize, usize, usize, usize)| row_of(r)) =~= before.push(
                                        (start as nat, b.0 as nat, first as nat, b.2 as nat),
                                    ));
                                    start = b.0;
                                    first = b.2;
                                    cols = tail;
                                }
                            },
                            None => {
                                rows.push((start, at, first, i));
                                assert(rows@.map_values(|r: (usize, usize, usize, usize)| row_of(r)) =~= before.push(
                                    (start as nat, at as nat, first as nat, i as nat),
                                ));
                                start = at;
                                first = i;
                                cols = 0;
                            },
                        }
                        brk = None;
                    }
                },
                None => {},
            }
            cols = cols.saturating_add(n);
            if is_all_whitespace(g.as_str()) {
                brk = Some((at + len, cols, i + 1));
            }
        }
        at = at + len;
        i = i + 1;
    }
    assert(gv.take(i as int) =~= gv);
    rows.push((start, at, first, i));
    assert(rows@.map_values(|r: (usize, usize, usize, usize)| row_of(r)).len() >= 1);
    rows
}

/// The character start of each grapheme.
fn grapheme_starts(gs: &Vec<String>, total: usize) -> (starts: Vec<usize>)
    requires
        total == gs@.map_values(|g: String| g@).flatten().len(),
    ensures
        starts@.len() == gs@.len(),
        forall|i: int| 0 <= i < gs@.len() ==> starts@[i] == gstart(gs@.map_values(|g: String| g@), i),
{
    let ghost gv = gs@.map_values(|g: String| g@);
    let mut starts: Vec<usize> = Vec::new();
    let mut at: usize = 0;
    let mut i: usize = 0;
    assert(gv.take(0) =~= Seq::<Seq<char>>::empty());
    while i < gs.len()
        invariant
            i <= gs@.len(),
            gv == gs@.map_values(|g: String| g@),
            total == gv.flatten().len(),
            at == gv.take(i as int).flatten().len(),
            starts@.len() == i,
            forall|j: int| 0 <= j < i ==> starts@[j] == gstart(gv, j),
        decreases gs@.len() - i,
    {
        proof {
            prefix_len(gv, i as int);
        }
        starts.push(at);
        at = at + gs[i].unicode_len();
        i = i + 1;
    }
    starts
}

/// The row of a cursor among rows that start at `rows`.
fn find_row(rows: &Vec<(usize, usize, usize, usize)>, cursor: usize) -> (r: usize)
    requires
        rows@.len() >= 1,
    ensures
        r == row_from(rows@.map_values(|x: (usize, usize, usize, usize)| row_of(x)), cursor as nat, 0),
        r < rows@.len(),
{
    let ghost rv = rows@.map_values(|x: (usize, usize, usize, usize)| row_of(x));
    let mut r: usize = 0;
    while r < rows.len() - 1 && rows[r + 1].0 <= cursor
        invariant
            r < rows@.len(),
            rv == rows@.map_values(|x: (usize, usize, usize, usize)| row_of(x)),
            row_from(rv, cursor as nat, r as nat) == row_from(rv, cursor as nat, 0),
        decreases rows@.len() - r,
    {
        r = r + 1;
    }
    r
}

/// The cells of the graphemes from `i` that start before `cursor`.
fn cursor_col(gs: &Vec<String>, starts: &Vec<usize>, i: usize, cursor: usize) -> (c: usize)
    requires
        starts@.len() == gs@.len(),
        forall|j: int| 0 <= j < gs@.len() ==> starts@[j] == gstart(gs@.map_values(|g: String| g@), j),
    ensures
        c == cursor_cols(gs@.map_values(|g: String| g@), i as nat, cursor as nat, 0),
{
    let ghost gv = gs@.map_values(|g: String| g@);
    let mut col: usize = 0;
    let mut k: usize = i;
    while k < gs.len() && starts[k] < cursor
        invariant
            gv == gs@.map_values(|g: String| g@),
            starts@.len() == gs@.len(),
            forall|j: int| 0 <= j < gs@.len() ==> starts@[j] == gstart(gv, j),
            cursor_cols(gv, k as nat, cursor as nat, col as nat) == cursor_cols(gv, i as nat, cursor as nat, 0),
        decreases gs@.len() - k,
    {
        assert(gv[k as int] == gs@[k as int]@);
        col = col.saturating_add(text_width(gs[k].as_str()));
        k = k + 1;
    }
    col
}

/// The cells of graphemes `i..end`.
fn span_width(gs: &Vec<String>, i: usize, end: usize) -> (c: usize)
    ensures
        c == span_cols(gs@.map_values(|g: String| g@), i as nat, end as nat, 0),
{
    let ghost gv = gs@.map_values(|g: String| g@);
    let mut col: usize = 0;
    let mut k: usize = i;
    while k < end && k < gs.len()
        invariant
            gv == gs@.map_values(|g: String| g@),
            span_cols(gv, k as nat, end as nat, col as nat) == span_cols(gv, i as nat, end as nat, 0),
        decreases end - k,
    {
        assert(gv[k as int] == gs@[k as int]@);
        col = col.saturating_add(text_width(gs[k].as_str()));
        k = k + 1;
    }
    col
}

/// A column as a canvas coordinate.
fn coord(x: usize) -> (c: i32)
    ensures
        c == to_i32(x as nat),
{
    if x > 2147483647 {
        2147483647
    } else {
        x as i32
    }
}

/// Paint graphemes `i..end` of row `y` from column 0.
fn paint_row(
    canvas: &mut Canvas<'_>,
    gs: &Vec<String>,
    starts: &Vec<usize>,
    i: usize,
    end: usize,
    look: Ghost<AreaLook>,
    style: Style,
    sel: (usize, usize),
    focused: bool,
    top: usize,
    left: usize,
    width: usize,
    y: usize,
) -> (x: usize)
    requires
        old(canvas).frame().wf(),
        starts@.len() == gs@.len(),
        forall|j: int| 0 <= j < gs@.len() ==> starts@[j] == gstart(gs@.map_values(|g: String| g@), j),
        look@ == (AreaLook { style, selection: (sel.0 as nat, sel.1 as nat), focused, top: top as nat, left: left as nat, width: width as nat }),
        top <= y,
        y - top <= i32::MAX,
    ensures
        (final(canvas).frame(), x as nat) == row_paint(
            old(canvas).frame(),
            old(canvas).origin_spec(),
            old(canvas).clip_spec(),
            gs@.map_values(|g: String| g@),
            i as nat,
            end as nat,
            0,
            look@,
            y as nat,
        ),
        final(canvas).frame().wf(),
        final(canvas).origin_spec() == old(canvas).origin_spec(),
        final(canvas).clip_spec() == old(canvas).clip_spec(),
        final(canvas).size_spec() == old(canvas).size_spec(),
        final(canvas).focused_spec() == old(canvas).focused_spec(),
{
    let ghost gv = gs@.map_values(|g: String| g@);
    let ghost target = row_paint(
        canvas.frame(),
        canvas.origin_spec(),
        canvas.clip_spec(),
        gv,
        i as nat,
        end as nat,
        0,
        look@,
        y as nat,
    );
    let li = coord(left);
    let yi = (y - top) as i32;
    let mut x: usize = 0;
    let mut k: usize = i;
    while k < end && k < gs.len() && (x < left || x - left < width)
        invariant
            gv == gs@.map_values(|g: String| g@),
            starts@.len() == gs@.len(),
            forall|j: int| 0 <= j < gs@.len() ==> starts@[j] == gstart(gv, j),
            look@ == (AreaLook { style, selection: (sel.0 as nat, sel.1 as nat), focused, top: top as nat, left: left as nat, width: width as nat }),
            li == to_i32(left as nat),
            yi == (y - top) as i32,
            canvas.frame().wf(),
            canvas.origin_spec() == old(canvas).origin_spec(),
            canvas.clip_spec() == old(canvas).clip_spec(),
            canvas.size_spec() == old(canvas).size_spec(),
            canvas.focused_spec() == old(canvas).focused_spec(),
            row_paint(
                canvas.frame(),
                canvas.origin_spec(),
                canvas.clip_spec(),
                gv,
                k as nat,
                end as nat,
                x as nat,
                look@,
                y as nat,
            ) == target,
        decreases end - k,
    {
        let g = &gs[k];
        assert(gv[k as int] == g@);
        let at = starts[k];
        let on = focused && sel.0 <= at && at < sel.1;
        let shade = Style { reverse: style.reverse || on, ..style };
        let xi = coord(x);
        canvas.text(xi - li, yi, g.as_str(), shade);
        x = x.saturating_add(text_width(g.as_str()));
        k = k + 1;
    }
    x
}

/// The cells of the widest of rows `r..`, at least `w`.
fn widest_width(gs: &Vec<String>, rows: &Vec<(usize, usize, usize, usize)>) -> (w: usize)
    ensures
        w == widest_row(
            gs@.map_values(|g: String| g@),
            rows@.map_values(|x: (usize, usize, usize, usize)| row_of(x)),
            0,
            0,
        ),
{
    let ghost gv = gs@.map_values(|g: String| g@);
    let ghost rv = rows@.map_values(|x: (usize, usize, usize, usize)| row_of(x));
    let mut w: usize = 0;
    let mut r: usize = 0;
    while r < rows.len()
        invariant
            r <= rows@.len(),
            gv == gs@.map_values(|g: String| g@),
            rv == rows@.map_values(|x: (usize, usize, usize, usize)| row_of(x)),
            widest_row(gv, rv, r as nat, w as nat) == widest_row(gv, rv, 0, 0),
        decreases rows@.len() - r,
    {
        let c = span_width(gs, rows[r].2, rows[r].3);
        if c > w {
            w = c;
        }
        r = r + 1;
    }
    w
}

/// The extent a text area takes at a given width: its widest row, kept
/// within one cell and the width, and its rows.
pub open spec fn textarea_extent(v: TextareaView, width: Option<u16>) -> (u16, u16) {
    let limit = match width {
        Some(w) => wrap_limit(v.wrap, w),
        None => None,
    };
    let gs = grapheme_clusters(v.editor.text);
    let rows = text_rows(v.editor.text, limit);
    let widest = widest_row(gs, rows, 0, 0);
    let most: nat = match width {
        Some(w) => if w == 0 { 1 } else { w as nat },
        None => u16::MAX as nat,
    };
    let w = if widest < 1 { 1 } else if widest > most { most } else { widest };
    (w as u16, if rows.len() > u16::MAX { u16::MAX } else { rows.len() as u16 })
}

/// Where the display of a text area `size` cells large starts so that the
/// cursor shows: the row scrolled just far enough, and, without wrapping,
/// the column.
pub open spec fn textarea_scroll(v: TextareaView, size: (u16, u16)) -> (nat, nat) {
    let gs = grapheme_clusters(v.editor.text);
    let rows = text_rows(v.editor.text, wrap_limit(v.wrap, size.0));
    let row = row_from(rows, v.editor.cursor, 0);
    let col = cursor_cols(gs, rows[row as int].2, v.editor.cursor, 0);
    let h: nat = if size.1 == 0 { 1 } else { size.1 as nat };
    let w: nat = if size.0 == 0 { 1 } else { size.0 as nat };
    (less(row, (h - 1) as nat), if v.wrap { 0 } else { less(col, (w - 1) as nat) })
}

impl Textarea {
    /// A text area holding `value`, with newlines normalized and other
    /// controls removed.
    pub fn new(value: &str) -> (t: Self)
        ensures
            t.editor@ == fresh(clean_spec(value@, true)),
            t.editor.wf(),
            t.style == plain_style(),
            t.atom == plain_style(),
            t.placeholder@ == Seq::<char>::empty(),
            !t.wrap,
            t.cursor == CursorShape::Default,
    {
        let cleaned = clean(value, true);
        Textarea {
            editor: Editor::new(cleaned.as_str()),
            style: Style::default(),
            atom: Style::default(),
            placeholder: String::new(),
            wrap: false,
            cursor: CursorShape::Default,
        }
    }
}

impl Default for Textarea {
    /// An empty text area.
    fn default() -> (t: Self)
        ensures
            t.editor@ == fresh(Seq::empty()),
            t.editor.wf(),
            t.style == plain_style(),
            t.atom == plain_style(),
            t.placeholder@ == Seq::<char>::empty(),
            !t.wrap,
            t.cursor == CursorShape::Default,
    {
        Textarea {
            editor: Editor::default(),
            style: Style::default(),
            atom: Style::default(),
            placeholder: String::new(),
            wrap: false,
            cursor: CursorShape::Default,
        }
    }
}

impl Element for Textarea {
    /// The editor is well formed.
    open spec fn ready(&self) -> bool {
        self.editor.wf()
    }

    fn focusable(&self) -> (r: bool)
        ensures
            r,
    {
        true
    }

    fn measure(&self, width: Option<u16>) -> (r: (u16, u16))
        ensures
            r == textarea_extent(self@, width),
    {
        let value = self.editor.text();
        let total = value.unicode_len();
        let gs = graphemes(value);
        let limit: Option<usize> = match width {
            Some(w) => if self.wrap {
                Some(if w == 0 { 1 } else { w as usize })
            } else {
                None
            },
            None => None,
        };
        let rows = layout_rows(&gs, limit, total);
        let widest = widest_width(&gs, &rows);
        let most: usize = match width {
            Some(w) => if w == 0 { 1 } else { w as usize },
            None => 65535,
        };
        let w: usize = if widest < 1 {
            1
        } else if widest > most {
            most
        } else {
            widest
        };
        let h: u16 = if rows.len() > 65535 {
            65535
        } else {
            rows.len() as u16
        };
        (w as u16, h)
    }

    /// Scroll just far enough to keep the cursor in view.
    fn viewport(&mut self, size: (u16, u16), content: (u16, u16)) -> (r: (u16, u16))
        ensures
            final(self).editor@ == old(self).editor@,
            final(self).editor.scroll() == textarea_scroll(old(self)@, size),
            final(self).style == old(self).style,
            final(self).atom == old(self).atom,
            final(self).placeholder@ == old(self).placeholder@,
            final(self).wrap == old(self).wrap,
            final(self).cursor == old(self).cursor,
            r == (0u16, 0u16),
    {
        let value = self.editor.text();
        let total = value.unicode_len();
        let gs = graphemes(value);
        let limit: Option<usize> = if self.wrap {
            Some(if size.0 == 0 { 1 } else { size.0 as usize })
        } else {
            None
        };
        let rows = layout_rows(&gs, limit, total);
        let starts = grapheme_starts(&gs, total);
        let cursor = self.editor.at();
        let row = find_row(&rows, cursor);
        let col = cursor_col(&gs, &starts, rows[row].2, cursor);
        let h: usize = if size.1 == 0 { 1 } else { size.1 as usize };
        let w: usize = if size.0 == 0 { 1 } else { size.0 as usize };
        let top = row.saturating_sub(h - 1);
        let left = if self.wrap {
            0
        } else {
            col.saturating_sub(w - 1)
        };
        self.editor.set_view(top, left);
        (0, 0)
    }

    /// The placeholder while empty, the rows from the display's first row
    /// and column with the selection reversed when focused, and the cursor.
    #[verifier::rlimit(60)]
    fn paint(&self, canvas: &mut Canvas<'_>)
        ensures
            final(canvas).frame() == textarea_frame(
                self@,
                old(canvas).frame(),
                old(canvas).origin_spec(),
                old(canvas).size_spec(),
                old(canvas).clip_spec(),
                old(canvas).focused_spec(),
            ),
    {
        let (width, height) = canvas.size();
        let value = self.editor.text();
        let total = value.unicode_len();
        if total == 0 {
            canvas.text(0, 0, self.placeholder.as_str(), self.style);
        }
        let gs = graphemes(value);
        let ghost gv = gs@.map_values(|g: String| g@);
        let chars = chars_of(value);
        let limit: Option<usize> = if self.wrap {
            Some(if width == 0 { 1 } else { width as usize })
        } else {
            None
        };
        let rows = layout_rows(&gs, limit, total);
        let ghost rv = rows@.map_values(|x: (usize, usize, usize, usize)| row_of(x));
        proof {
            assert(limit_of(limit) == wrap_limit(self.wrap, width));
            assert(rv == text_rows(value@, wrap_limit(self.wrap, width)));
        }
        let starts = grapheme_starts(&gs, total);
        let (top, left) = self.editor.view_offset();
        let (s, e) = self.editor.selected();
        let focused = canvas.focused();
        let w = width as usize;
        let look: Ghost<AreaLook> = Ghost(AreaLook {
            style: self.style,
            selection: (s as nat, e as nat),
            focused,
            top: top as nat,
            left: left as nat,
            width: w as nat,
        });
        let stop: usize = if top < rows.len() && (height as usize) < rows.len() - top {
            top + height as usize
        } else {
            rows.len()
        };
        let ghost origin = canvas.origin_spec();
        let ghost clip = canvas.clip_spec();
        let ghost target = rows_paint(canvas.frame(), origin, clip, value@, gv, rv, top as nat, stop as nat, look@);
        let li = coord(left);
        let mut y: usize = top;
        while y < stop
            invariant
                top <= y,
                stop <= rows@.len(),
                stop <= top + height,
                gv == gs@.map_values(|g: String| g@),
                rv == rows@.map_values(|x: (usize, usize, usize, usize)| row_of(x)),
                chars@ == value@,
                starts@.len() == gs@.len(),
                forall|j: int| 0 <= j < gs@.len() ==> starts@[j] == gstart(gv, j),
                look@ == (AreaLook {
                    style: self.style,
                    selection: (s as nat, e as nat),
                    focused,
                    top: top as nat,
                    left: left as nat,
                    width: w as nat,
                }),
                li == to_i32(left as nat),
                canvas.frame().wf(),
                canvas.origin_spec() == origin,
                canvas.clip_spec() == clip,
                canvas.size_spec() == old(canvas).size_spec(),
                canvas.focused_spec() == focused,
                rows_paint(canvas.frame(), origin, clip, value@, gv, rv, y as nat, stop as nat, look@) == target,
            decreases stop - y,
        {
            let row = rows[y];
            assert(rv[y as int] == row_of(row));
            let x = paint_row(canvas, &gs, &starts, row.2, row.3, look, self.style, (s, e), focused, top, left, w, y);
            if row.1 < chars.len() && chars[row.1] == '\n' && focused && s <= row.1 && row.1 < e {
                let mut blank = String::new();
                push_char(&mut blank, ' ');
                assert(blank@ =~= seq![' ']);
                let xi = coord(x);
                canvas.text(xi - li, (y - top) as i32, blank.as_str(), Style { reverse: true, ..self.style });
            }
            y = y + 1;
        }
        if focused {
            let cursor = self.editor.at();
            let row = find_row(&rows, cursor);
            let col = cursor_col(&gs, &starts, rows[row].2, cursor);
            let a = col.saturating_sub(left);
            let b = (width as usize).saturating_sub(1);
            let x = if a < b {
                a
            } else {
                b
            };
            canvas.cursor(coord(x), coord(row) - coord(top));
            canvas.cursor_shape(self.cursor);
        }
    }

    /// Edit as multiline text.
    fn event(&mut self, event: &Event) -> (r: Response)
        ensures
            (final(self).editor@, r) == edit_spec(old(self).editor@, event@, true),
            final(self).style == old(self).style,
            final(self).atom == old(self).atom,
            final(self).placeholder@ == old(self).placeholder@,
            final(self).wrap == old(self).wrap,
            final(self).cursor == old(self).cursor,
    {
        edit(&mut self.editor, event, true)
    }
}

/// Whether a row fits `w` columns, or else holds, after graphemes that take
/// no columns, one grapheme that alone is wider.
pub open spec fn row_fits(gs: Seq<Seq<char>>, r: Row, w: nat) -> bool {
    ||| span_cols(gs, r.2, r.3, 0) <= w
    ||| (r.2 < r.3 && span_cols(gs, r.2, (r.3 - 1) as nat, 0) == 0)
}

/// Rows laid out so far fit, and the open row's columns and break point
/// agree with its graphemes.
spec fn open_ok(gs: Seq<Seq<char>>, st: RowState, i: nat, w: nat) -> bool {
    &&& st.first <= i <= gs.len()
    &&& st.cols == span_cols(gs, st.first, i, 0)
    &&& (st.cols <= w || (st.first < i && span_cols(gs, st.first, (i - 1) as nat, 0) == 0))
    &&& (st.brk matches Some(b) ==> st.first < b.2 <= i && b.1 == span_cols(gs, st.first, b.2, 0))
    &&& forall|k: int| 0 <= k < st.rows.len() ==> row_fits(gs, #[trigger] st.rows[k], w)
}

/// Columns counted on from `acc` in two stretches are those of the whole.
proof fn span_split(gs: Seq<Seq<char>>, a: nat, b: nat, c: nat, acc: nat)
    requires
        a <= b <= c <= gs.len(),
    ensures
        span_cols(gs, a, c, acc) == span_cols(gs, b, c, span_cols(gs, a, b, acc)),
    decreases b - a,
{
    if a < b {
        span_split(gs, a + 1, b, c, sum_cols(acc, str_width(gs[a as int])));
    }
}

/// Counting on from more gives more, never less than the start, and never
/// more than the largest `usize` from within it.
proof fn span_mono(gs: Seq<Seq<char>>, a: nat, c: nat, x: nat, y: nat)
    requires
        x <= y <= usize::MAX,
    ensures
        span_cols(gs, a, c, x) <= span_cols(gs, a, c, y),
        x <= span_cols(gs, a, c, x),
        span_cols(gs, a, c, y) <= usize::MAX,
    decreases c - a,
{
    if a < c && a < gs.len() {
        let n = str_width(gs[a as int]);
        span_mono(gs, a + 1, c, sum_cols(x, n), sum_cols(y, n));
    }
}

/// One grapheme's columns, counted on from `acc`.
proof fn span_one(gs: Seq<Seq<char>>, i: nat, acc: nat)
    requires
        i < gs.len(),
    ensures
        span_cols(gs, i, i + 1, acc) == sum_cols(acc, str_width(gs[i as int])),
        span_cols(gs, i, i, acc) == acc,
{
    assert(span_cols(gs, i + 1, i + 1, sum_cols(acc, str_width(gs[i as int]))) == sum_cols(
        acc,
        str_width(gs[i as int]),
    ));
}

/// Columns that stay below the largest `usize` add up.
proof fn span_shift(gs: Seq<Seq<char>>, a: nat, c: nat, acc: nat)
    requires
        acc <= usize::MAX,
        span_cols(gs, a, c, acc) < usize::MAX,
    ensures
        span_cols(gs, a, c, acc) == acc + span_cols(gs, a, c, 0),
    decreases c - a,
{
    if a < c && a < gs.len() {
        let n = str_width(gs[a as int]);
        if acc + n > usize::MAX {
            span_mono(gs, a + 1, c, usize::MAX as nat, usize::MAX as nat);
        } else {
            span_mono(gs, a + 1, c, n, acc + n);
            span_shift(gs, a + 1, c, acc + n);
            span_shift(gs, a + 1, c, n);
        }
    }
}

/// Adding a grapheme to the rows keeps them fitting.
#[verifier::rlimit(80)]
proof fn step_fits(gs: Seq<Seq<char>>, st: RowState, i: nat, at: nat, w: nat)
    requires
        1 <= w <= u16::MAX,
        i < gs.len(),
        open_ok(gs, st, i, w),
    ensures
        open_ok(gs, row_step(st, gs[i as int], i, at, str_width(gs[i as int]), Some(w)), i + 1, w),
{
    let g = gs[i as int];
    let n = str_width(g);
    let next = row_step(st, g, i, at, n, Some(w));
    span_split(gs, st.first, i, i + 1, 0);
    span_one(gs, i, 0);
    span_one(gs, i, st.cols);
    span_one(gs, i, less(st.cols, match st.brk { Some(b) => b.1, None => 0 }));
    assert(span_cols(gs, i + 1, i + 1, 0) == 0);
    if g == seq!['\n'] {
        assert(row_fits(gs, (st.start, at, st.first, i), w));
        assert forall|k: int| 0 <= k < next.rows.len() implies row_fits(gs, #[trigger] next.rows[k], w) by {
            if k < st.rows.len() {
                assert(next.rows[k] == st.rows[k]);
            }
        }
    } else if st.cols + n > w && st.cols > 0 {
        match st.brk {
            Some(b) => {
                span_split(gs, st.first, b.2, i, 0);
                span_mono(gs, st.first, b.2, 0, 0);
                span_mono(gs, b.2, i, 0, b.1);
                span_split(gs, b.2, i, i + 1, 0);
                if st.cols <= w {
                    span_shift(gs, b.2, i, b.1);
                } else {
                    if b.2 < i {
                        span_split(gs, st.first, b.2, (i - 1) as nat, 0);
                        span_mono(gs, b.2, (i - 1) as nat, 0, 0);
                        span_mono(gs, st.first, b.2, 0, 0);
                        span_split(gs, st.first, (i - 1) as nat, i, 0);
                        span_split(gs, b.2, (i - 1) as nat, i, 0);
                        span_mono(gs, b.2, (i - 1) as nat, b.1, b.1);
                    }
                }
                let r1 = (st.start, b.0, st.first, b.2);
                assert(row_fits(gs, r1, w));
                if less(st.cols, b.1) + n > w {
                    let r2 = (b.0, at, b.2, i);
                    assert(row_fits(gs, r2, w));
                    assert(span_cols(gs, i, i, 0) == 0);
                    assert forall|k: int| 0 <= k < next.rows.len() implies row_fits(gs, #[trigger] next.rows[k], w) by {
                        if k < st.rows.len() {
                            assert(next.rows[k] == st.rows[k]);
                        } else if k == st.rows.len() {
                            assert(next.rows[k] == r1);
                        } else {
                            assert(next.rows[k] == r2);
                        }
                    }
                } else {
                    assert forall|k: int| 0 <= k < next.rows.len() implies row_fits(gs, #[trigger] next.rows[k], w) by {
                        if k < st.rows.len() {
                            assert(next.rows[k] == st.rows[k]);
                        } else {
                            assert(next.rows[k] == r1);
                        }
                    }
                }
            },
            None => {
                assert(row_fits(gs, (st.start, at, st.first, i), w));
                assert(span_cols(gs, i, i, 0) == 0);
                assert forall|k: int| 0 <= k < next.rows.len() implies row_fits(gs, #[trigger] next.rows[k], w) by {
                    if k < st.rows.len() {
                        assert(next.rows[k] == st.rows[k]);
                    }
                }
            },
        }
    } else {
        assert(next.rows == st.rows);
    }
}

/// Laying out the rest keeps every row fitting.
proof fn rows_fit_from(gs: Seq<Seq<char>>, i: nat, at: nat, st: RowState, w: nat)
    requires
        1 <= w <= u16::MAX,
        open_ok(gs, st, i, w),
    ensures
        forall|k: int| 0 <= k < rows_from(gs, i, at, st, Some(w)).len()
            ==> row_fits(gs, #[trigger] rows_from(gs, i, at, st, Some(w))[k], w),
    decreases gs.len() - i,
{
    if i >= gs.len() {
        let rows = st.rows.push((st.start, at, st.first, i));
        assert(rows_from(gs, i, at, st, Some(w)) == rows);
        assert(row_fits(gs, (st.start, at, st.first, i), w));
        assert forall|k: int| 0 <= k < rows.len() implies row_fits(gs, #[trigger] rows[k], w) by {
            if k < st.rows.len() {
                assert(rows[k] == st.rows[k]);
            } else {
                assert(rows[k] == (st.start, at, st.first, i));
            }
        }
    } else {
        step_fits(gs, st, i, at, w);
        assert(rows_from(gs, i, at, st, Some(w)) == rows_from(
            gs,
            i + 1,
            at + gs[i as int].len(),
            row_step(st, gs[i as int], i, at, str_width(gs[i as int]), Some(w)),
            Some(w),
        ));
        rows_fit_from(
            gs,
            i + 1,
            at + gs[i as int].len(),
            row_step(st, gs[i as int], i, at, str_width(gs[i as int]), Some(w)),
            w,
        );
    }
}

/// Wrapped text fits: with a width to wrap to, every row of a text area
/// fits it, unless the row holds, after graphemes that take no columns, a
/// single grapheme that alone is wider.
pub proof fn wrapped_rows_fit(text: Seq<char>, w: nat)
    requires
        1 <= w <= u16::MAX,
    ensures
        forall|k: int| 0 <= k < text_rows(text, Some(w)).len()
            ==> row_fits(grapheme_clusters(text), #[trigger] text_rows(text, Some(w))[k], w),
{
    let gs = grapheme_clusters(text);
    let init = RowState { rows: Seq::empty(), start: 0, first: 0, cols: 0, brk: None };
    rows_fit_from(gs, 0, 0, init, w);
}

} // verus!
