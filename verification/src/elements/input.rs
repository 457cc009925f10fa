//! Single-line editing with selection and a horizontally scrolling cursor.
use crate::buffer::{plain_style, BufferView, CursorShape, Style};
use crate::canvas::{canvas_cursor, canvas_text, Canvas};
use crate::editor::{fresh, insert_spec, Editor, EditorView};
use crate::element::Element;
use crate::event::{Event, EventView, Key, Response};
use crate::geometry::Rect;
use crate::layout::cap16;
use crate::scan::{char_is_control, is_control};
use crate::text::{clean, clean_spec, edit, edit_spec};
use crate::unicode::{chars_of, grapheme_clusters, graphemes, push_char, push_str, str_width, text_width};
use vstd::prelude::*;

verus! {

/// A single-line editor that scrolls sideways to keep the cursor in view.
pub struct Input {
    pub editor: Editor,
    pub style: Style,
    /// Shown while the value is empty, with the cursor at its start when focused.
    pub placeholder: String,
    /// Shown in place of every grapheme, for secrets. Clicks are ignored while
    /// set, because cell positions no longer say anything about the text.
    pub mask: Option<char>,
    /// The most graphemes the input accepts; typing and pasting stop there.
    pub limit: Option<usize>,
    pub cursor: CursorShape,
}

/// What an input holds: its editor, the column its display starts at, and
/// how it looks.
pub struct InputView {
    pub editor: EditorView,
    pub left: nat,
    pub style: Style,
    pub placeholder: Seq<char>,
    pub mask: Option<char>,
    pub limit: Option<usize>,
    pub cursor: CursorShape,
}

impl View for Input {
    type V = InputView;

    open spec fn view(&self) -> InputView {
        InputView {
            editor: self.editor@,
            left: self.editor.scroll().1,
            style: self.style,
            placeholder: self.placeholder@,
            mask: self.mask,
            limit: self.limit,
            cursor: self.cursor,
        }
    }
}

/// `a + b`, held at the largest `usize`.
pub open spec fn sum_cols(a: nat, b: nat) -> nat {
    if a + b > usize::MAX {
        usize::MAX as nat
    } else {
        a + b
    }
}

/// `a - b`, or zero where `b` is larger.
pub open spec fn less(a: nat, b: nat) -> nat {
    if a >= b {
        (a - b) as nat
    } else {
        0
    }
}

/// What a grapheme shows as: itself, or the mask.
pub open spec fn shown(g: Seq<char>, mask: Option<char>) -> Seq<char> {
    match mask {
        Some(m) => seq![m],
        None => g,
    }
}

/// The cells a grapheme takes as shown.
pub open spec fn cells(g: Seq<char>, mask: Option<char>) -> nat {
    str_width(shown(g, mask))
}

/// The column after graphemes shown one after another from `col`.
pub open spec fn run_width(gs: Seq<Seq<char>>, mask: Option<char>, col: nat) -> nat
    decreases gs.len(),
{
    if gs.len() == 0 {
        col
    } else {
        run_width(gs.drop_first(), mask, sum_cols(col, cells(gs[0], mask)))
    }
}

/// The column of the cursor: the cells of the graphemes that start before
/// it, counted from `col`; the first grapheme starts at character `at`.
pub open spec fn cursor_width(
    gs: Seq<Seq<char>>,
    mask: Option<char>,
    at: nat,
    cursor: nat,
    col: nat,
) -> nat
    decreases gs.len(),
{
    if gs.len() == 0 || at >= cursor {
        col
    } else {
        cursor_width(gs.drop_first(), mask, at + gs[0].len(), cursor, sum_cols(col, cells(gs[0], mask)))
    }
}

/// The first grapheme start at or past column `desired`, from `left`.
pub open spec fn scroll_to(gs: Seq<Seq<char>>, mask: Option<char>, left: nat, desired: nat) -> nat
    decreases gs.len(),
{
    if gs.len() == 0 || left >= desired {
        left
    } else {
        scroll_to(gs.drop_first(), mask, sum_cols(left, cells(gs[0], mask)), desired)
    }
}

/// The column a display of `v` starts at so that the cursor shows in a
/// width of `width` cells.
pub open spec fn input_left(v: InputView, width: u16) -> nat {
    let gs = grapheme_clusters(v.editor.text);
    let w: nat = if width == 0 { 1 } else { width as nat };
    scroll_to(gs, v.mask, 0, less(cursor_width(gs, v.mask, 0, v.editor.cursor, 0), (w - 1) as nat))
}

/// How the graphemes of an input are painted.
pub struct InputLook {
    pub mask: Option<char>,
    pub style: Style,
    pub selection: (nat, nat),
    pub focused: bool,
    pub cursor: nat,
    pub left: nat,
    pub width: nat,
}

/// `style`, reversed where `on`.
pub open spec fn selected_style(style: Style, on: bool) -> Style {
    Style { reverse: style.reverse || on, ..style }
}

/// A column that fits a canvas coordinate.
pub open spec fn to_i32(x: nat) -> i32 {
    if x > i32::MAX {
        i32::MAX
    } else {
        x as i32
    }
}

/// Painting graphemes from column `col`, the first starting at character
/// `at`: each visible one is written where it starts, reversed where focused
/// and selected; painting stops at the first that starts past the width.
/// Also gives the cursor's cell, once a grapheme starts at it, and the
/// column reached.
pub open spec fn input_run(
    b: BufferView,
    origin: (i32, i32),
    clip: Rect,
    gs: Seq<Seq<char>>,
    look: InputLook,
    at: nat,
    col: nat,
    cx: Option<nat>,
) -> (BufferView, Option<nat>, nat)
    decreases gs.len(),
{
    if gs.len() == 0 {
        (b, cx, col)
    } else {
        let g = gs[0];
        let cx2 = if at == look.cursor {
            Some(less(col, look.left))
        } else {
            cx
        };
        if col >= look.left && col - look.left >= look.width {
            (b, cx2, col)
        } else {
            let on = look.focused && look.selection.0 <= at && at < look.selection.1;
            let b2 = if col >= look.left {
                canvas_text(
                    b,
                    origin,
                    clip,
                    (col - look.left) as i32,
                    0,
                    shown(g, look.mask),
                    selected_style(look.style, on),
                )
            } else {
                b
            };
            input_run(b2, origin, clip, gs.drop_first(), look, at + g.len(), sum_cols(col, cells(g, look.mask)), cx2)
        }
    }
}

/// The frame after painting input `v`: the placeholder while the value is
/// empty, the graphemes from its display's first column, and, when focused,
/// the cursor and its look.
pub open spec fn input_frame(
    v: InputView,
    b: BufferView,
    origin: (i32, i32),
    clip: Rect,
    size: (u16, u16),
    focused: bool,
) -> BufferView {
    let b0 = if v.editor.text.len() == 0 {
        canvas_text(b, origin, clip, 0, 0, v.placeholder, v.style)
    } else {
        b
    };
    let look = InputLook {
        mask: v.mask,
        style: v.style,
        selection: v.editor.selection(),
        focused,
        cursor: v.editor.cursor,
        left: v.left,
        width: size.0 as nat,
    };
    let r = input_run(b0, origin, clip, grapheme_clusters(v.editor.text), look, 0, 0, None);
    if focused {
        let x = match r.1 {
            Some(x) => x,
            None => less(r.2, v.left),
        };
        BufferView { shape: v.cursor, ..canvas_cursor(r.0, origin, clip, to_i32(x), 0) }
    } else {
        r.0
    }
}

/// The text an event would type or paste into a single line.
pub open spec fn typed(event: EventView) -> Option<Seq<char>> {
    match event {
        EventView::Paste(value) => Some(clean_spec(value, false)),
        EventView::Key(Key::Char(c), m) => if !m.ctrl && !m.alt && !is_control(c) {
            Some(seq![c])
        } else {
            None
        },
        _ => None,
    }
}

/// The editor after an event, and the response: mouse events are left
/// alone under a mask; with a limit, typed text is cut to the graphemes
/// that still fit, and an insertion with nothing left to insert or replace
/// is taken without a change; anything else edits as a single line.
pub open spec fn input_event(v: InputView, event: EventView) -> (EditorView, Response) {
    if v.mask is Some && event is Mouse {
        (v.editor, Response { handled: false, changed: false })
    } else if v.limit is Some && typed(event) is Some {
        let limit = v.limit->0 as nat;
        let text = typed(event)->0;
        let sel = v.editor.selection();
        let kept = less(
            grapheme_clusters(v.editor.text).len(),
            grapheme_clusters(v.editor.text.subrange(sel.0 as int, sel.1 as int)).len(),
        );
        let gs = grapheme_clusters(text);
        let n = if less(limit, kept) < gs.len() {
            less(limit, kept)
        } else {
            gs.len()
        };
        let room = gs.take(n as int).flatten();
        if room.len() == 0 && sel.0 == sel.1 {
            (v.editor, Response { handled: true, changed: false })
        } else {
            (insert_spec(v.editor, room), Response { handled: true, changed: true })
        }
    } else {
        edit_spec(v.editor, event, false)
    }
}

/// The characters before grapheme `k` are those of the graphemes before
/// it, and no more than all of them.
pub(crate) proof fn prefix_len(gs: Seq<Seq<char>>, k: int)
    requires
        0 <= k < gs.len(),
    ensures
        gs.take(k + 1).flatten().len() == gs.take(k).flatten().len() + gs[k].len(),
        gs.take(k + 1).flatten().len() <= gs.flatten().len(),
    decreases gs.len() - k,
{
    assert(gs.take(k + 1) =~= gs.take(k).push(gs[k]));
    gs.take(k).lemma_flatten_push(gs[k]);
    if k + 1 < gs.len() {
        prefix_len(gs, k + 1);
    } else {
        assert(gs.take(k + 1) =~= gs);
    }
}

/// The cursor's column is never less than where it is counted from.
proof fn cursor_width_grows(gs: Seq<Seq<char>>, mask: Option<char>, at: nat, cursor: nat, col: nat)
    requires
        col <= usize::MAX,
    ensures
        col <= cursor_width(gs, mask, at, cursor, col) <= usize::MAX,
    decreases gs.len(),
{
    if gs.len() > 0 && at < cursor {
        cursor_width_grows(gs.drop_first(), mask, at + gs[0].len(), cursor, sum_cols(col, cells(gs[0], mask)));
    }
}

/// Scrolling to a column at or before the cursor's stops at a grapheme
/// start between that column and the cursor's.
proof fn scroll_reaches(gs: Seq<Seq<char>>, mask: Option<char>, at: nat, cursor: nat, col: nat, desired: nat)
    requires
        col <= usize::MAX,
        desired <= cursor_width(gs, mask, at, cursor, col),
    ensures
        desired <= scroll_to(gs, mask, col, desired) <= cursor_width(gs, mask, at, cursor, col),
    decreases gs.len(),
{
    cursor_width_grows(gs, mask, at, cursor, col);
    if gs.len() > 0 && col < desired {
        scroll_reaches(gs.drop_first(), mask, at + gs[0].len(), cursor, sum_cols(col, cells(gs[0], mask)), desired);
    }
}

/// The cursor stays in view: the display start an input scrolls to for a
/// width is at or before the cursor's column, and the cursor's column lies
/// within the width from it.
pub proof fn input_keeps_cursor_in_view(v: InputView, width: u16)
    ensures
        ({
            let c = cursor_width(grapheme_clusters(v.editor.text), v.mask, 0, v.editor.cursor, 0);
            let left = input_left(v, width);
            let w: nat = if width == 0 { 1 } else { width as nat };
            left <= c && c - left < w
        }),
{
    let gs = grapheme_clusters(v.editor.text);
    let c = cursor_width(gs, v.mask, 0, v.editor.cursor, 0);
    let w: nat = if width == 0 { 1 } else { width as nat };
    scroll_reaches(gs, v.mask, 0, v.editor.cursor, 0, less(c, (w - 1) as nat));
}

impl Input {
    /// An input holding `value`, with controls removed.
    pub fn new(value: &str) -> (i: Self)
        ensures
            i.editor@ == fresh(clean_spec(value@, false)),
            i.editor.wf(),
            i.style == plain_style(),
            i.placeholder@ == Seq::<char>::empty(),
            i.mask is None,
            i.limit is None,
            i.cursor == CursorShape::Default,
    {
        let cleaned = clean(value, false);
        Input {
            editor: Editor::new(cleaned.as_str()),
            style: Style::default(),
            placeholder: String::new(),
            mask: None,
            limit: None,
            cursor: CursorShape::Default,
        }
    }

    /// The cells a grapheme takes as shown.
    fn cells_of(&self, g: &str) -> (n: usize)
        ensures
            n == cells(g@, self.mask),
    {
        match self.mask {
            Some(m) => {
                let mut s = String::new();
                push_char(&mut s, m);
                assert(s@ =~= seq![m]);
                text_width(s.as_str())
            },
            None => text_width(g),
        }
    }

    /// The text an event would type or paste.
    fn typed_text(event: &Event) -> (t: Option<String>)
        ensures
            match t {
                Some(s) => typed(event@) == Some(s@),
                None => typed(event@) is None,
            },
    {
        match event {
            Event::Paste(value) => Some(clean(value.as_str(), false)),
            Event::Key(Key::Char(c), m) => {
                if !m.ctrl && !m.alt && !char_is_control(*c) {
                    let mut s = String::new();
                    push_char(&mut s, *c);
                    assert(s@ =~= seq![*c]);
                    Some(s)
                } else {
                    None
                }
            },
            _ => None,
        }
    }
}

impl Default for Input {
    /// An empty input.
    fn default() -> (i: Self)
        ensures
            i.editor@ == fresh(Seq::empty()),
            i.editor.wf(),
            i.style == plain_style(),
            i.placeholder@ == Seq::<char>::empty(),
            i.mask is None,
            i.limit is None,
            i.cursor == CursorShape::Default,
    {
        Input {
            editor: Editor::default(),
            style: Style::default(),
            placeholder: String::new(),
            mask: None,
            limit: None,
            cursor: CursorShape::Default,
        }
    }
}

impl Element for Input {
    /// The editor is well formed.
    open spec fn ready(&self) -> bool {
        self.editor.wf()
    }

    fn focusable(&self) -> (r: bool)
        ensures
            r,
    {
        true
    }

    /// One cell more than the text, for the cursor after its last grapheme,
    /// and one row.
    fn measure(&self, width: Option<u16>) -> (r: (u16, u16))
        ensures
            r.0 == cap16((run_width(grapheme_clusters(self@.editor.text), self.mask, 0) + 1) as int),
            r.1 == 1,
    {
        let gs = graphemes(self.editor.text());
        let ghost gv = gs@.map_values(|g: String| g@);
        let mut col: usize = 0;
        let mut k: usize = 0;
        assert(gv.skip(0) =~= gv);
        while k < gs.len()
            invariant
                k <= gs@.len(),
                gv == gs@.map_values(|g: String| g@),
                gv == grapheme_clusters(self@.editor.text),
                run_width(gv.skip(k as int), self.mask, col as nat) == run_width(gv, self.mask, 0),
            decreases gs@.len() - k,
        {
            assert(gv.skip(k as int).drop_first() =~= gv.skip(k + 1));
            let n = self.cells_of(gs[k].as_str());
            col = col.saturating_add(n);
            k = k + 1;
        }
        let w: u16 = if col >= 65535 {
            65535
        } else {
            (col + 1) as u16
        };
        (w, 1)
    }

    /// Scroll just far enough to keep the cursor in view.
    fn viewport(&mut self, size: (u16, u16), content: (u16, u16)) -> (r: (u16, u16))
        ensures
            final(self).editor@ == old(self).editor@,
            final(self)@.left == input_left(old(self)@, size.0),
            final(self).style == old(self).style,
            final(self).placeholder@ == old(self).placeholder@,
            final(self).mask == old(self).mask,
            final(self).limit == old(self).limit,
            final(self).cursor == old(self).cursor,
            r == (0u16, 0u16),
    {
        let width: usize = if size.0 == 0 {
            1
        } else {
            size.0 as usize
        };
        let cursor = self.editor.at();
        let gs = graphemes(self.editor.text());
        let ghost gv = gs@.map_values(|g: String| g@);
        let total = self.editor.text().unicode_len();
        proof {
            assert(gv.flatten() == self@.editor.text);
        }
        // The cursor's column.
        let mut at: usize = 0;
        let mut col: usize = 0;
        let mut k: usize = 0;
        assert(gv.skip(0) =~= gv);
        assert(gv.take(0) =~= Seq::<Seq<char>>::empty());
        while k < gs.len() && at < cursor
            invariant
                k <= gs@.len(),
                gv == gs@.map_values(|g: String| g@),
                total == gv.flatten().len(),
                at == gv.take(k as int).flatten().len(),
                cursor_width(gv.skip(k as int), self.mask, at as nat, cursor as nat, col as nat)
                    == cursor_width(gv, self.mask, 0, cursor as nat, 0),
            decreases gs@.len() - k,
        {
            proof {
                prefix_len(gv, k as int);
            }
            assert(gv.skip(k as int).drop_first() =~= gv.skip(k + 1));
            let n = self.cells_of(gs[k].as_str());
            at = at + gs[k].unicode_len();
            col = col.saturating_add(n);
            k = k + 1;
        }
        let desired = col.saturating_sub(width - 1);
        // The first grapheme start at or past it.
        let mut left: usize = 0;
        let mut j: usize = 0;
        while j < gs.len() && left < desired
            invariant
                j <= gs@.len(),
                gv == gs@.map_values(|g: String| g@),
                scroll_to(gv.skip(j as int), self.mask, left as nat, desired as nat)
                    == scroll_to(gv, self.mask, 0, desired as nat),
            decreases gs@.len() - j,
        {
            assert(gv.skip(j as int).drop_first() =~= gv.skip(j + 1));
            let n = self.cells_of(gs[j].as_str());
            left = left.saturating_add(n);
            j = j + 1;
        }
        self.editor.set_view(0, left);
        (0, 0)
    }

    /// The placeholder while empty, the graphemes from the display's first
    /// column, the selection reversed when focused, and the cursor.
    fn paint(&self, canvas: &mut Canvas<'_>)
        ensures
            final(canvas).frame() == input_frame(
                self@,
                old(canvas).frame(),
                old(canvas).origin_spec(),
                old(canvas).clip_spec(),
                old(canvas).size_spec(),
                old(canvas).focused_spec(),
            ),
    {
        let width = canvas.size().0 as usize;
        let value = self.editor.text();
        let total = value.unicode_len();
        if total == 0 {
            canvas.text(0, 0, self.placeholder.as_str(), self.style);
        }
        let left = self.editor.view_offset().1;
        let cursor = self.editor.at();
        let (s, e) = self.editor.selected();
        let focused = canvas.focused();
        let gs = graphemes(value);
        let ghost gv = gs@.map_values(|g: String| g@);
        let ghost origin = canvas.origin_spec();
        let ghost clip = canvas.clip_spec();
        let ghost look = InputLook {
            mask: self.mask,
            style: self.style,
            selection: self@.editor.selection(),
            focused,
            cursor: cursor as nat,
            left: left as nat,
            width: width as nat,
        };
        let ghost target = input_run(canvas.frame(), origin, clip, gv, look, 0, 0, None);
        let mut at: usize = 0;
        let mut col: usize = 0;
        let mut cx: Option<usize> = None;
        let mut k: usize = 0;
        assert(gv.skip(0) =~= gv);
        assert(gv.take(0) =~= Seq::<Seq<char>>::empty());
        while k < gs.len()
            invariant
                k <= gs@.len(),
                gv == gs@.map_values(|g: String| g@),
                total == gv.flatten().len(),
                k < gs@.len() ==> at == gv.take(k as int).flatten().len(),
                canvas.frame().wf(),
                canvas.origin_spec() == origin,
                canvas.clip_spec() == clip,
                canvas.size_spec() == old(canvas).size_spec(),
                canvas.focused_spec() == focused,
                width == canvas.size_spec().0,
                look.mask == self.mask,
                look.style == self.style,
                look.selection == (s as nat, e as nat),
                look.focused == focused,
                look.cursor == cursor,
                look.left == left,
                look.width == width,
                input_run(
                    canvas.frame(),
                    origin,
                    clip,
                    gv.skip(k as int),
                    look,
                    at as nat,
                    col as nat,
                    match cx {
                        Some(x) => Some(x as nat),
                        None => None,
                    },
                ) == target,
            decreases gs@.len() - k,
        {
            proof {
                prefix_len(gv, k as int);
            }
            let g = &gs[k];
            assert(gv.skip(k as int)[0] == g@);
            assert(gv.skip(k as int).drop_first() =~= gv.skip(k + 1));
            if at == cursor {
                cx = Some(col.saturating_sub(left));
            }
            let n = self.cells_of(g.as_str());
            if col >= left && col - left >= width {
                k = gs.len();
                assert(gv.skip(k as int).len() == 0);
            } else {
                if col >= left {
                    let on = focused && s <= at && at < e;
                    let style = Style { reverse: self.style.reverse || on, ..self.style };
                    match self.mask {
                        Some(m) => {
                            let mut shown_mask = String::new();
                            push_char(&mut shown_mask, m);
                            assert(shown_mask@ =~= seq![m]);
                            canvas.text((col - left) as i32, 0, shown_mask.as_str(), style);
                        },
                        None => {
                            canvas.text((col - left) as i32, 0, g.as_str(), style);
                        },
                    }
                }
                at = at + g.unicode_len();
                col = col.saturating_add(n);
                k = k + 1;
            }
        }
        if focused {
            let x = match cx {
                Some(x) => x,
                None => col.saturating_sub(left),
            };
            let xi: i32 = if x > 2147483647 {
                2147483647
            } else {
                x as i32
            };
            canvas.cursor(xi, 0);
            canvas.cursor_shape(self.cursor);
        }
    }

    /// Under a mask, mouse events are left alone; with a limit, typing and
    /// pasting stop at the graphemes that fit; otherwise edit as one line.
    fn event(&mut self, event: &Event) -> (r: Response)
        ensures
            (final(self).editor@, r) == input_event(old(self)@, event@),
            final(self).style == old(self).style,
            final(self).placeholder@ == old(self).placeholder@,
            final(self).mask == old(self).mask,
            final(self).limit == old(self).limit,
            final(self).cursor == old(self).cursor,
    {
        let mouse = match event {
            Event::Mouse(_) => true,
            _ => false,
        };
        if self.mask.is_some() && mouse {
            return Response::ignore();
        }
        if let Some(limit) = self.limit {
            if let Some(text) = Input::typed_text(event) {
                let value = self.editor.text();
                let all = graphemes(value).len();
                let (s, e) = self.editor.selected();
                let chars = chars_of(value);
                let mut sel = String::new();
                let mut i: usize = s;
                while i < e
                    invariant
                        s <= i <= e,
                        e <= chars@.len(),
                        sel@ == chars@.subrange(s as int, i as int),
                    decreases e - i,
                {
                    push_char(&mut sel, chars[i]);
                    assert(chars@.subrange(s as int, i + 1) =~= chars@.subrange(s as int, i as int).push(chars@[i as int]));
                    i = i + 1;
                }
                let part = graphemes(sel.as_str()).len();
                let kept = all.saturating_sub(part);
                let allow = limit.saturating_sub(kept);
                let ins = graphemes(text.as_str());
                let ghost iv = ins@.map_values(|g: String| g@);
                let n = if allow < ins.len() {
                    allow
                } else {
                    ins.len()
                };
                let mut room = String::new();
                let mut j: usize = 0;
                assert(iv.take(0) =~= Seq::<Seq<char>>::empty());
                while j < n
                    invariant
                        j <= n <= ins@.len(),
                        iv == ins@.map_values(|g: String| g@),
                        room@ == iv.take(j as int).flatten(),
                    decreases n - j,
                {
                    push_str(&mut room, ins[j].as_str());
                    proof {
                        assert(iv.take(j + 1) =~= iv.take(j as int).push(iv[j as int]));
                        iv.take(j as int).lemma_flatten_push(iv[j as int]);
                    }
                    j = j + 1;
                }
                if room.unicode_len() == 0 && s == e {
                    return Response::handled();
                }
                self.editor.insert(room.as_str());
                return Response::repaint();
            }
        }
        edit(&mut self.editor, event, false)
    }
}

} // verus!
