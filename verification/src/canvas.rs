//! Drawing in an element's local coordinates, clipped by the viewport it is
//! given.
use crate::buffer::{inside, place, place_stays_within, place_wf, with_row, Buffer, BufferView, CursorShape, Style};
use crate::geometry::Rect;
use crate::scan::{control_free, is_control_free};
use crate::unicode::{grapheme_clusters, graphemes, push_str, str_width, text_width};
use vstd::prelude::*;

verus! {

/// `i32::saturating_add`.
pub open spec fn sat_i32(v: int) -> i32 {
    if v > i32::MAX {
        i32::MAX
    } else if v < i32::MIN {
        i32::MIN
    } else {
        v as i32
    }
}

/// Add, saturating at the bounds of `i32`.
pub fn sat_add(a: i32, b: i32) -> (r: i32)
    ensures
        r == sat_i32(a + b),
{
    let v = a as i64 + b as i64;
    if v > i32::MAX as i64 {
        i32::MAX
    } else if v < i32::MIN as i64 {
        i32::MIN
    } else {
        v as i32
    }
}

/// Graphemes written left to right on row `y` from column `x`: control
/// characters and zero-width graphemes are skipped, a grapheme only partly
/// inside the clip is left out whole, and writing stops at the clip's
/// right edge. A grapheme is also left out where writing it would cut a
/// wide grapheme that reaches outside the clip, so no cell outside the
/// clip ever changes.
pub open spec fn clipped_run(
    b: BufferView,
    clip: Rect,
    y: i32,
    x: i32,
    gs: Seq<Seq<char>>,
    style: Style,
) -> BufferView
    decreases gs.len(),
{
    if gs.len() == 0 {
        b
    } else {
        let g = gs[0];
        let w = str_width(g) as i32;
        let right = clip.x + clip.width;
        if !control_free(g) || w == 0 {
            clipped_run(b, clip, y, x, gs.skip(1), style)
        } else if x >= right {
            b
        } else {
            let b2 = if x >= clip.x && x + w <= right && w >= 1 && 0 <= y < b.height && x + w
                <= b.width && inside(b.rows[y as int], x as int, w as int, clip.x as int, right) {
                with_row(b, y as int, place(b.rows[y as int], x as int, g, w as nat, style))
            } else {
                b
            };
            clipped_run(b2, clip, y, sat_i32(x + w), gs.skip(1), style)
        }
    }
}

/// What `text` at local `(x, y)` makes of the frame.
pub open spec fn canvas_text(
    b: BufferView,
    origin: (i32, i32),
    clip: Rect,
    x: i32,
    y: i32,
    text: Seq<char>,
    style: Style,
) -> BufferView {
    let row = sat_i32(origin.1 + y);
    if row < clip.y || row >= clip.y + clip.height {
        b
    } else {
        clipped_run(b, clip, row, sat_i32(origin.0 + x), grapheme_clusters(text), style)
    }
}

/// Whether `b2` agrees with `b` on every cell outside `clip`, and on
/// everything but cells.
pub open spec fn same_outside(b: BufferView, b2: BufferView, clip: Rect) -> bool {
    &&& b2.width == b.width
    &&& b2.height == b.height
    &&& b2.cursor == b.cursor
    &&& b2.shape == b.shape
    &&& b2.version == b.version
    &&& b2.rows.len() == b.rows.len()
    &&& forall|y: int, j: int|
        0 <= y < b.rows.len() && 0 <= j < b.rows[y].len() && !(clip.y <= y < clip.y + clip.height
            && clip.x <= j < clip.x + clip.width) ==> #[trigger] b2.rows[y][j] == b.rows[y][j]
}

proof fn clipped_run_stays(b: BufferView, clip: Rect, y: i32, x: i32, gs: Seq<Seq<char>>, style: Style)
    requires
        b.wf(),
        clip.y <= y < clip.y + clip.height,
    ensures
        same_outside(b, clipped_run(b, clip, y, x, gs, style), clip),
        clipped_run(b, clip, y, x, gs, style).wf(),
    decreases gs.len(),
{
    if gs.len() > 0 {
        let g = gs[0];
        let w = str_width(g) as i32;
        let right = clip.x + clip.width;
        if !control_free(g) || w == 0 {
            clipped_run_stays(b, clip, y, x, gs.skip(1), style);
        } else if x >= right {
        } else {
            if x >= clip.x && x + w <= right && w >= 1 && 0 <= y < b.height && x + w <= b.width
                && inside(b.rows[y as int], x as int, w as int, clip.x as int, right) {
                let r = b.rows[y as int];
                let p = place(r, x as int, g, w as nat, style);
                place_wf(r, x as int, g, w as nat, style);
                place_stays_within(r, x as int, g, w as nat, style, clip.x as int, right);
                let b2 = with_row(b, y as int, p);
                assert(b2.wf());
                clipped_run_stays(b2, clip, y, sat_i32(x + w), gs.skip(1), style);
                let fin = clipped_run(b2, clip, y, sat_i32(x + w), gs.skip(1), style);
                assert forall|yy: int, j: int|
                    0 <= yy < b.rows.len() && 0 <= j < b.rows[yy].len() && !(clip.y <= yy < clip.y
                        + clip.height && clip.x <= j < clip.x + clip.width) implies #[trigger] fin.rows[yy][j]
                    == b.rows[yy][j] by {
                    assert(fin.rows[yy][j] == b2.rows[yy][j]);
                    if yy == y {
                        assert(p[j] == r[j]);
                    }
                }
            } else {
                clipped_run_stays(b, clip, y, sat_i32(x + w), gs.skip(1), style);
            }
        }
    }
}

/// A canvas cannot reach cells outside its clip: writing text changes no
/// cell outside it, nor the frame's size or cursor.
pub proof fn text_stays_in_clip(
    b: BufferView,
    origin: (i32, i32),
    clip: Rect,
    x: i32,
    y: i32,
    text: Seq<char>,
    style: Style,
)
    requires
        b.wf(),
    ensures
        same_outside(b, canvas_text(b, origin, clip, x, y, text, style), clip),
{
    let row = sat_i32(origin.1 + y);
    if !(row < clip.y || row >= clip.y + clip.height) {
        clipped_run_stays(b, clip, row, sat_i32(origin.0 + x), grapheme_clusters(text), style);
    }
}

/// An element paints through a canvas, which cannot reach cells outside
/// its clip.
pub struct Canvas<'a> {
    buffer: &'a mut Buffer,
    origin: (i32, i32),
    clip: Rect,
    size: (u16, u16),
    focused: bool,
}

impl<'a> Canvas<'a> {
    /// The frame painted on.
    pub closed spec fn frame(&self) -> BufferView {
        self.buffer@
    }

    /// Where local `(0, 0)` is in the frame.
    pub closed spec fn origin_spec(&self) -> (i32, i32) {
        self.origin
    }

    /// The cells of the frame this canvas may paint.
    pub closed spec fn clip_spec(&self) -> Rect {
        self.clip
    }

    pub closed spec fn size_spec(&self) -> (u16, u16) {
        self.size
    }

    pub closed spec fn focused_spec(&self) -> bool {
        self.focused
    }

    /// A canvas on `buffer` for an element `size` cells large whose top
    /// left is at `origin`, painting only within `clip`.
    pub fn new(
        buffer: &'a mut Buffer,
        origin: (i32, i32),
        clip: Rect,
        size: (u16, u16),
        focused: bool,
    ) -> (c: Self)
        ensures
            c.frame() == old(buffer)@,
            c.origin_spec() == origin,
            c.clip_spec() == clip,
            c.size_spec() == size,
            c.focused_spec() == focused,
    {
        Canvas { buffer, origin, clip, size, focused }
    }

    pub fn size(&self) -> (s: (u16, u16))
        ensures
            s == self.size_spec(),
    {
        self.size
    }

    pub fn focused(&self) -> (f: bool)
        ensures
            f == self.focused_spec(),
    {
        self.focused
    }

    /// The local rows the clip lets this canvas paint, from the first to
    /// just past the last.
    pub fn visible_rows(&self) -> (r: (i64, i64))
        ensures
            r.0 == self.clip_spec().y - self.origin_spec().1,
            r.1 == self.clip_spec().y + self.clip_spec().height - self.origin_spec().1,
    {
        (
            self.clip.y as i64 - self.origin.1 as i64,
            self.clip.y as i64 + self.clip.height as i64 - self.origin.1 as i64,
        )
    }

    /// Write a single line; partially clipped graphemes are omitted as a
    /// whole.
    pub fn text(&mut self, x: i32, y: i32, text: &str, style: Style)
        requires
            old(self).frame().wf(),
        ensures
            final(self).frame() == canvas_text(
                old(self).frame(),
                old(self).origin_spec(),
                old(self).clip_spec(),
                x,
                y,
                text@,
                style,
            ),
            final(self).frame().wf(),
            final(self).origin_spec() == old(self).origin_spec(),
            final(self).clip_spec() == old(self).clip_spec(),
            final(self).size_spec() == old(self).size_spec(),
            final(self).focused_spec() == old(self).focused_spec(),
    {
        let row = sat_add(self.origin.1, y);
        if row < self.clip.y as i32 || row as i64 >= self.clip.y as i64 + self.clip.height as i64 {
            return;
        }
        let mut col = sat_add(self.origin.0, x);
        let right = self.clip.x as i64 + self.clip.width as i64;
        let gs = graphemes(text);
        let ghost gv = gs@.map_values(|g: String| g@);
        let ghost target = clipped_run(self.buffer@, self.clip, row, col, gv, style);
        let mut k: usize = 0;
        assert(gv.skip(0) =~= gv);
        while k < gs.len()
            invariant
                k <= gs@.len(),
                gv == gs@.map_values(|g: String| g@),
                right == self.clip.x + self.clip.width,
                self.buffer@.wf(),
                self.origin == old(self).origin,
                self.clip == old(self).clip,
                self.size == old(self).size,
                self.focused == old(self).focused,
                clipped_run(self.buffer@, self.clip, row, col, gv.skip(k as int), style) == target,
            decreases gs@.len() - k,
        {
            let g = &gs[k];
            let ghost rest = gv.skip(k as int);
            assert(rest[0] == g@);
            assert(rest.skip(1) =~= gv.skip(k + 1));
            if !is_control_free(g.as_str()) {
                k = k + 1;
            } else {
                let w = text_width(g.as_str()) as i32;
                if w == 0 {
                    k = k + 1;
                } else if col as i64 >= right {
                    assert(clipped_run(self.buffer@, self.clip, row, col, gv.skip(k as int), style)
                        == self.buffer@);
                    k = gs.len();
                    assert(gv.skip(k as int).len() == 0);
                } else {
                    if col >= self.clip.x as i32 && col as i64 + w as i64 <= right && w >= 1 && row >= 0
                        && (row as i64) < self.buffer.area().height as i64 && col as i64 + w as i64
                        <= self.buffer.area().width as i64 {
                        let right_edge = self.clip.x as usize + self.clip.width as usize;
                        if self.buffer.stays_within(
                            row as usize,
                            col as usize,
                            w as usize,
                            self.clip.x as usize,
                            right_edge,
                        ) {
                            self.buffer.place_grapheme(row as usize, col as usize, g, w as usize, style);
                        }
                    }
                    col = sat_add(col, w);
                    k = k + 1;
                }
            }
        }
    }

    /// Put the cursor at a local cell, if the clip shows it.
    pub fn cursor(&mut self, x: i32, y: i32)
        ensures
            final(self).frame() == canvas_cursor(
                old(self).frame(),
                old(self).origin_spec(),
                old(self).clip_spec(),
                x,
                y,
            ),
            final(self).origin_spec() == old(self).origin_spec(),
            final(self).clip_spec() == old(self).clip_spec(),
            final(self).size_spec() == old(self).size_spec(),
            final(self).focused_spec() == old(self).focused_spec(),
    {
        let cx = sat_add(self.origin.0, x);
        let cy = sat_add(self.origin.1, y);
        if cx >= 0 && cy >= 0 && cx <= 65535 && cy <= 65535 && self.clip.contains(cx as u16, cy as u16) {
            self.buffer.set_cursor(Some((cx as u16, cy as u16)));
        }
    }

    /// Set how the terminal cursor looks.
    pub fn cursor_shape(&mut self, shape: CursorShape)
        ensures
            final(self).frame() == (BufferView { shape, ..old(self).frame() }),
            final(self).origin_spec() == old(self).origin_spec(),
            final(self).clip_spec() == old(self).clip_spec(),
            final(self).size_spec() == old(self).size_spec(),
            final(self).focused_spec() == old(self).focused_spec(),
    {
        self.buffer.set_shape(shape);
    }
}

/// A frame with the cursor at a canvas's local cell, if the clip shows that
/// cell; otherwise unchanged.
pub open spec fn canvas_cursor(b: BufferView, origin: (i32, i32), clip: Rect, x: i32, y: i32) -> BufferView {
    let cx = sat_i32(origin.0 + x);
    let cy = sat_i32(origin.1 + y);
    if 0 <= cx <= u16::MAX && 0 <= cy <= u16::MAX && clip.has(cx as int, cy as int) {
        BufferView { cursor: Some((cx as u16, cy as u16)), ..b }
    } else {
        b
    }
}

/// `n` copies of a character.
pub open spec fn repeat_char(c: char, n: nat) -> Seq<char> {
    Seq::new(n, |i: int| c)
}

/// A string of `n` copies of the one-character string `unit`.
fn repeat(unit: &str, n: usize) -> (s: String)
    ensures
        s@ == Seq::new(n as nat, |i: int| unit@).flatten(),
{
    let mut s = String::new();
    let mut i: usize = 0;
    while i < n
        invariant
            i <= n,
            s@ == Seq::new(i as nat, |k: int| unit@).flatten(),
        decreases n - i,
    {
        push_str(&mut s, unit);
        proof {
            let a = Seq::new(i as nat, |k: int| unit@);
            assert(Seq::new((i + 1) as nat, |k: int| unit@) =~= a.push(unit@));
            a.lemma_flatten_push(unit@);
        }
        i = i + 1;
    }
    s
}

/// Copies of a one-character string are that character repeated.
proof fn repeat_one(c: char, n: nat)
    ensures
        Seq::new(n, |i: int| seq![c]).flatten() == repeat_char(c, n),
    decreases n,
{
    if n > 0 {
        repeat_one(c, (n - 1) as nat);
        let a = Seq::new((n - 1) as nat, |i: int| seq![c]);
        assert(Seq::new(n, |i: int| seq![c]) =~= a.push(seq![c]));
        a.lemma_flatten_push(seq![c]);
        assert(repeat_char(c, n) =~= repeat_char(c, (n - 1) as nat) + seq![c]);
    } else {
        assert(Seq::new(n, |i: int| seq![c]) =~= Seq::<Seq<char>>::empty());
    }
}

/// Rows `from..to` of a canvas, each written with a run of spaces as wide
/// as the canvas.
pub open spec fn fill_rows(
    b: BufferView,
    origin: (i32, i32),
    clip: Rect,
    width: nat,
    from: int,
    to: int,
    style: Style,
) -> BufferView
    decreases to - from,
{
    if from >= to {
        b
    } else {
        fill_rows(
            canvas_text(b, origin, clip, 0, from as i32, repeat_char(' ', width), style),
            origin,
            clip,
            width,
            from + 1,
            to,
            style,
        )
    }
}

/// The sides of a box on rows `from..to`: a bar at the left and right edge.
pub open spec fn side_rows(
    b: BufferView,
    origin: (i32, i32),
    clip: Rect,
    width: int,
    from: int,
    to: int,
    style: Style,
) -> BufferView
    decreases to - from,
{
    if from >= to {
        b
    } else {
        let left = canvas_text(b, origin, clip, 0, from as i32, seq!['│'], style);
        let both = canvas_text(left, origin, clip, (width - 1) as i32, from as i32, seq!['│'], style);
        side_rows(both, origin, clip, width, from + 1, to, style)
    }
}

/// A box around a canvas `width` by `height` cells, drawn with light
/// box-drawing characters; nothing when it is too small for one.
pub open spec fn border_spec(
    b: BufferView,
    origin: (i32, i32),
    clip: Rect,
    width: int,
    height: int,
    style: Style,
) -> BufferView {
    if width < 2 || height < 2 {
        b
    } else {
        let line = repeat_char('─', (width - 2) as nat);
        let top = canvas_text(b, origin, clip, 0, 0, seq!['┌'] + line + seq!['┐'], style);
        let bottom = canvas_text(
            top,
            origin,
            clip,
            0,
            (height - 1) as i32,
            seq!['└'] + line + seq!['┘'],
            style,
        );
        side_rows(bottom, origin, clip, width, 1, height - 1, style)
    }
}

impl<'a> Canvas<'a> {
    /// Paint every cell of the canvas, within the clip, as a blank in
    /// `style`.
    pub fn fill(&mut self, style: Style)
        requires
            old(self).frame().wf(),
        ensures
            final(self).frame() == fill_rows(
                old(self).frame(),
                old(self).origin_spec(),
                old(self).clip_spec(),
                old(self).size_spec().0 as nat,
                0,
                old(self).size_spec().1 as int,
                style,
            ),
            final(self).frame().wf(),
            final(self).origin_spec() == old(self).origin_spec(),
            final(self).clip_spec() == old(self).clip_spec(),
            final(self).size_spec() == old(self).size_spec(),
            final(self).focused_spec() == old(self).focused_spec(),
    {
        let row = repeat(" ", self.size.0 as usize);
        proof {
            reveal_strlit(" ");
            repeat_one(' ', self.size.0 as nat);
            assert(" "@ =~= seq![' ']);
            assert(Seq::new(self.size.0 as nat, |i: int| " "@) =~= Seq::new(
                self.size.0 as nat,
                |i: int| seq![' '],
            ));
        }
        let mut y: u16 = 0;
        let ghost target = fill_rows(
            self.frame(),
            self.origin,
            self.clip,
            self.size.0 as nat,
            0,
            self.size.1 as int,
            style,
        );
        while y < self.size.1
            invariant
                y <= self.size.1,
                row@ == repeat_char(' ', self.size.0 as nat),
                self.frame().wf(),
                self.origin == old(self).origin,
                self.clip == old(self).clip,
                self.size == old(self).size,
                self.focused == old(self).focused,
                fill_rows(
                    self.frame(),
                    self.origin,
                    self.clip,
                    self.size.0 as nat,
                    y as int,
                    self.size.1 as int,
                    style,
                ) == target,
            decreases self.size.1 - y,
        {
            self.text(0, y as i32, row.as_str(), style);
            y = y + 1;
        }
    }

    /// Draw a box along the canvas's edges; nothing when it is narrower or
    /// shorter than two cells.
    pub fn border(&mut self, style: Style)
        requires
            old(self).frame().wf(),
        ensures
            final(self).frame() == border_spec(
                old(self).frame(),
                old(self).origin_spec(),
                old(self).clip_spec(),
                old(self).size_spec().0 as int,
                old(self).size_spec().1 as int,
                style,
            ),
            final(self).frame().wf(),
            final(self).origin_spec() == old(self).origin_spec(),
            final(self).clip_spec() == old(self).clip_spec(),
            final(self).size_spec() == old(self).size_spec(),
            final(self).focused_spec() == old(self).focused_spec(),
    {
        let (w, h) = self.size;
        if w < 2 || h < 2 {
            return;
        }
        proof {
            reveal_strlit("─");
            reveal_strlit("┌");
            reveal_strlit("┐");
            reveal_strlit("└");
            reveal_strlit("┘");
            reveal_strlit("│");
            repeat_one('─', (w - 2) as nat);
        }
        let line = repeat("─", (w - 2) as usize);
        let mut top = String::new();
        push_str(&mut top, "┌");
        push_str(&mut top, line.as_str());
        push_str(&mut top, "┐");
        let mut bottom = String::new();
        push_str(&mut bottom, "└");
        push_str(&mut bottom, line.as_str());
        push_str(&mut bottom, "┘");
        proof {
            assert("─"@ =~= seq!['─']);
            assert("┌"@ =~= seq!['┌']);
            assert("┐"@ =~= seq!['┐']);
            assert("└"@ =~= seq!['└']);
            assert("┘"@ =~= seq!['┘']);
            assert(Seq::new((w - 2) as nat, |i: int| "─"@) =~= Seq::new(
                (w - 2) as nat,
                |i: int| seq!['─'],
            ));
            assert(top@ =~= seq!['┌'] + repeat_char('─', (w - 2) as nat) + seq!['┐']);
            assert(bottom@ =~= seq!['└'] + repeat_char('─', (w - 2) as nat) + seq!['┘']);
        }
        self.text(0, 0, top.as_str(), style);
        self.text(0, (h - 1) as i32, bottom.as_str(), style);
        let ghost target = border_spec(
            old(self).frame(),
            self.origin,
            self.clip,
            w as int,
            h as int,
            style,
        );
        let mut y: u16 = 1;
        while y < h - 1
            invariant
                1 <= y <= h - 1,
                (w, h) == self.size,
                w >= 2,
                self.frame().wf(),
                self.origin == old(self).origin,
                self.clip == old(self).clip,
                self.size == old(self).size,
                self.focused == old(self).focused,
                side_rows(self.frame(), self.origin, self.clip, w as int, y as int, h - 1, style)
                    == target,
            decreases h - 1 - y,
        {
            proof {
                reveal_strlit("│");
                assert("│"@ =~= seq!['│']);
            }
            let ghost before = self.frame();
            self.text(0, y as i32, "│", style);
            self.text((w - 1) as i32, y as i32, "│", style);
            assert(side_rows(before, self.origin, self.clip, w as int, y as int, h - 1, style)
                == side_rows(self.frame(), self.origin, self.clip, w as int, y + 1, h - 1, style));
            y = y + 1;
        }
    }
}

} // verus!
