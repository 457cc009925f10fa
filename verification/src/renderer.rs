//! Differential full-screen output to any byte sink.
use crate::buffer::{same_cell, Buffer, BufferView, Cell, CellView, CursorShape, Style};
use crate::output::{decimal, extend, push_decimal};
use crate::pen::{
    begin_bytes, cell_bytes, finish_bytes, frame_view, hide_bytes, row_bytes, Depth, Pen, Shadow,
};
use vstd::prelude::*;
use vstd::utf8::is_ascii_chars;

verus! {

/// `ESC [ row ; column H`, to a zero-based cell.
pub open spec fn move_bytes(x: nat, y: nat) -> Seq<u8> {
    seq![0x1bu8, 0x5b] + decimal(y + 1) + seq![0x3bu8] + decimal(x + 1) + seq![0x48u8]
}

/// Every row from `y` written whole, each from its first column.
pub open spec fn full_rows(depth: Depth, rows: Seq<Seq<CellView>>, y: int) -> Seq<u8>
    decreases rows.len() - y,
{
    if y >= rows.len() {
        Seq::empty()
    } else {
        move_bytes(0, y as nat) + row_bytes(depth, None, rows[y]) + full_rows(depth, rows, y + 1)
    }
}

/// What writing the changed cells `x..` of a row leaves: the bytes, the
/// style left open, and where the terminal's cursor is known to be.
pub struct Written {
    pub bytes: Seq<u8>,
    pub open: Option<Style>,
    pub next: Option<(nat, nat)>,
}

/// The changed cells of row `y`, from column `x`: each written where the
/// cursor is, or after moving it there. Only after plain ASCII is the
/// cursor known to be where the next cell goes.
pub open spec fn changed_cells(
    depth: Depth,
    open: Option<Style>,
    next: Option<(nat, nat)>,
    row: Seq<CellView>,
    old: Seq<CellView>,
    y: nat,
    x: int,
) -> Written
    decreases row.len() - x,
{
    if x >= row.len() || x < 0 {
        Written { bytes: Seq::empty(), open, next }
    } else if row[x].width == 0 || row[x] == old[x] {
        changed_cells(depth, open, next, row, old, y, x + 1)
    } else {
        let c = row[x];
        let moved = if next == Some((x as nat, y)) {
            Seq::empty()
        } else {
            move_bytes(x as nat, y)
        };
        let after = if is_ascii_chars(c.symbol) && x + c.width <= u16::MAX {
            Some(((x + c.width) as nat, y))
        } else {
            None
        };
        let rest = changed_cells(depth, Some(c.style), after, row, old, y, x + 1);
        Written { bytes: moved + cell_bytes(depth, open, c) + rest.bytes, ..rest }
    }
}

/// The changed cells of every row from `y`, rows that are the same skipped.
pub open spec fn changed_rows(
    depth: Depth,
    open: Option<Style>,
    next: Option<(nat, nat)>,
    rows: Seq<Seq<CellView>>,
    old: Seq<Seq<CellView>>,
    y: int,
) -> Written
    decreases rows.len() - y,
{
    if y >= rows.len() || y < 0 {
        Written { bytes: Seq::empty(), open, next }
    } else if rows[y] == old[y] {
        changed_rows(depth, open, next, rows, old, y + 1)
    } else {
        let here = changed_cells(depth, open, next, rows[y], old[y], y as nat, 0);
        let rest = changed_rows(depth, here.open, here.next, rows, old, y + 1);
        Written { bytes: here.bytes + rest.bytes, ..rest }
    }
}

/// A known cursor position, as numbers.
pub open spec fn at(p: Option<(u16, u16)>) -> Option<(nat, nat)> {
    match p {
        Some((x, y)) => Some((x as nat, y as nat)),
        None => None,
    }
}

/// Append the bytes that move the cursor to a zero-based cell.
fn push_move(out: &mut Vec<u8>, x: u16, y: u16)
    ensures
        final(out)@ == old(out)@ + move_bytes(x as nat, y as nat),
{
    extend(out, &[0x1b, 0x5b]);
    push_decimal(out, y as u64 + 1);
    out.push(0x3b);
    push_decimal(out, x as u64 + 1);
    out.push(0x48);
    assert(out@ =~= old(out)@ + move_bytes(x as nat, y as nat));
}

/// Write every row of `frame` whole, each from its first column.
fn write_full(pen: &mut Pen, out: &mut Vec<u8>, frame: &Buffer)
    requires
        frame@.wf(),
        old(pen).open_spec() is None,
    ensures
        final(out)@ == old(out)@ + full_rows(old(pen).depth_spec(), frame@.rows, 0),
        final(pen).open_spec() is None,
        final(pen).depth_spec() == old(pen).depth_spec(),
{
    let ghost depth = pen.depth_spec();
    let ghost rows = frame@.rows;
    let ghost start = out@;
    let h = frame.area().height;
    let mut y: u16 = 0;
    while y < h
        invariant
            y <= h,
            h == frame@.height,
            frame@.wf(),
            rows == frame@.rows,
            pen.open_spec() is None,
            pen.depth_spec() == depth,
            out@ + full_rows(depth, rows, y as int) == start + full_rows(depth, rows, 0),
        decreases h - y,
    {
        let ghost before = out@;
        push_move(out, 0, y);
        let row = frame.row(y);
        pen.row(out, row);
        assert(out@ + full_rows(depth, rows, y + 1) =~= before + full_rows(depth, rows, y as int));
        y = y + 1;
    }
    assert(out@ =~= start + full_rows(depth, rows, 0));
}

/// Write the cells of `frame` that differ from `last`, a frame of the same
/// size, placing the cursor only where it is not already known to be.
fn write_changes(pen: &mut Pen, out: &mut Vec<u8>, frame: &Buffer, last: &Buffer)
    requires
        frame@.wf(),
        last@.wf(),
        last@.width == frame@.width,
        last@.height == frame@.height,
    ensures
        final(out)@ == old(out)@ + changed_rows(
            old(pen).depth_spec(),
            old(pen).open_spec(),
            None,
            frame@.rows,
            last@.rows,
            0,
        ).bytes,
        final(pen).open_spec() == changed_rows(
            old(pen).depth_spec(),
            old(pen).open_spec(),
            None,
            frame@.rows,
            last@.rows,
            0,
        ).open,
        final(pen).depth_spec() == old(pen).depth_spec(),
{
    let ghost depth = pen.depth_spec();
    let ghost rows = frame@.rows;
    let ghost olds = last@.rows;
    let ghost start = out@;
    let ghost total = changed_rows(depth, pen.open_spec(), None, rows, olds, 0);
    let h = frame.area().height;
    let mut y: u16 = 0;
    let mut next: Option<(u16, u16)> = None;
    while y < h
        invariant
            y <= h,
            h == frame@.height == last@.height,
            frame@.width == last@.width,
            frame@.wf(),
            last@.wf(),
            rows == frame@.rows,
            olds == last@.rows,
            pen.depth_spec() == depth,
            out@ + changed_rows(depth, pen.open_spec(), at(next), rows, olds, y as int).bytes
                == start + total.bytes,
            changed_rows(depth, pen.open_spec(), at(next), rows, olds, y as int).open == total.open,
        decreases h - y,
    {
        if !frame.same_row(last, y) {
            let row = frame.row(y);
            let before = last.row(y);
            let ghost r = rows[y as int];
            let ghost o = olds[y as int];
            let mut x: usize = 0;
            while x < row.len()
                invariant
                    x <= row@.len(),
                    y < h,
                    h == frame@.height == last@.height,
                    frame@.width == last@.width,
                    frame@.wf(),
                    last@.wf(),
                    rows == frame@.rows,
                    olds == last@.rows,
                    r == rows[y as int],
                    o == olds[y as int],
                    r != o,
                    row@.map_values(|c: Cell| c@) == r,
                    before@.map_values(|c: Cell| c@) == o,
                    pen.depth_spec() == depth,
                    ({
                        let w = changed_cells(depth, pen.open_spec(), at(next), r, o, y as nat, x as int);
                        &&& out@ + w.bytes + changed_rows(depth, w.open, w.next, rows, olds, y + 1).bytes
                            == start + total.bytes
                        &&& changed_rows(depth, w.open, w.next, rows, olds, y + 1).open == total.open
                    }),
                decreases row@.len() - x,
            {
                let cell = &row[x];
                assert(r[x as int] == cell@);
                assert(o[x as int] == before@[x as int]@);
                if cell.width() != 0 && !same_cell(cell, &before[x]) {
                    let ghost out0 = out@;
                    let ghost open0 = pen.open_spec();
                    let ghost next0 = at(next);
                    let here = match next {
                        Some((a, b)) => a as usize == x && b == y,
                        None => false,
                    };
                    if !here {
                        push_move(out, x as u16, y);
                    }
                    pen.cell(out, cell);
                    assert(x + cell@.width <= r.len());
                    if cell.symbol().is_ascii() {
                        next = Some(((x + cell.width()) as u16, y));
                    } else {
                        next = None;
                    }
                    proof {
                        let w0 = changed_cells(depth, open0, next0, r, o, y as nat, x as int);
                        let w1 = changed_cells(depth, pen.open_spec(), at(next), r, o, y as nat, x + 1);
                        assert(w0.open == w1.open && w0.next == w1.next);
                        assert(out@ + w1.bytes =~= out0 + w0.bytes);
                    }
                }
                x = x + 1;
            }
        }
        y = y + 1;
    }
    assert(out@ =~= start + total.bytes);
}

/// What a renderer remembers.
pub struct RendererView {
    pub previous: Option<BufferView>,
    pub seen: u64,
    pub shape: Option<CursorShape>,
    pub depth: Depth,
    pub output: Seq<u8>,
}

/// The bytes and the memory a renderer has after rendering `frame`.
pub open spec fn render_spec(r: RendererView, frame: BufferView) -> RendererView {
    if frame.version != 0 && frame.version == r.seen {
        RendererView { output: Seq::empty(), ..r }
    } else {
        let old = match r.previous {
            Some(p) => if p.area() == frame.area() {
                Some(p)
            } else {
                None
            },
            None => None,
        };
        let body = match old {
            None => Written { bytes: full_rows(r.depth, frame.rows, 0), open: None, next: None },
            Some(o) => changed_rows(r.depth, None, None, frame.rows, o.rows, 0),
        };
        let cursor_changed = Some(frame.shape) != r.shape || match old {
            Some(o) => o.cursor != frame.cursor,
            None => true,
        };
        if body.bytes.len() == 0 && !cursor_changed {
            RendererView { seen: frame.version, output: Seq::empty(), ..r }
        } else {
            RendererView {
                previous: Some(frame),
                seen: frame.version,
                shape: Some(frame.shape),
                depth: r.depth,
                output: begin_bytes() + hide_bytes() + body.bytes + finish_bytes(
                    body.open,
                    r.shape,
                    frame.shape,
                    frame.cursor,
                ),
            }
        }
    }
}

/// A frame compared with itself has no changed cells.
proof fn unchanged_rows(depth: Depth, open: Option<Style>, next: Option<(nat, nat)>, rows: Seq<Seq<CellView>>, y: int)
    ensures
        changed_rows(depth, open, next, rows, rows, y).bytes.len() == 0,
    decreases rows.len() - y,
{
    if 0 <= y < rows.len() {
        unchanged_rows(depth, open, next, rows, y + 1);
    }
}

/// Rendering the frame just rendered writes nothing: either its version
/// names it, or every cell and the cursor match what the terminal shows.
pub proof fn render_again_is_silent(r: RendererView, frame: BufferView)
    requires
        r.inv(),
        frame.wf(),
    ensures
        render_spec(render_spec(r, frame), frame).output.len() == 0,
{
    unchanged_rows(r.depth, None, None, frame.rows, 0);
}

/// Nothing differs, nothing is sent: once a frame has been rendered,
/// rendering a frame equal to it in size, cells, cursor and cursor shape,
/// built separately and whatever its version, writes nothing. A frame whose
/// version the renderer has just seen is taken as what it names: the frame
/// the renderer remembers, with the same cells, cursor and cursor shape.
pub proof fn render_equal_is_silent(r: RendererView, f: BufferView, g: BufferView)
    requires
        r.inv(),
        f.wf(),
        f.version != 0 && f.version == r.seen ==> (r.previous matches Some(p) && p.area() == f.area()
            && p.rows == f.rows && p.cursor == f.cursor && r.shape == Some(f.shape)),
        g.width == f.width,
        g.height == f.height,
        g.rows == f.rows,
        g.cursor == f.cursor,
        g.shape == f.shape,
    ensures
        render_spec(render_spec(r, f), g).output.len() == 0,
{
    unchanged_rows(r.depth, None, None, f.rows, 0);
    assert(g.area() == f.area());
}

/// Writes changed cells to any byte sink. Does not acquire terminal modes.
pub struct Renderer {
    shadow: Shadow,
}

impl View for Renderer {
    type V = RendererView;

    closed spec fn view(&self) -> RendererView {
        RendererView {
            previous: frame_view(self.shadow.previous),
            seen: self.shadow.seen,
            shape: self.shadow.shape,
            depth: self.shadow.depth,
            output: self.shadow.output@,
        }
    }
}

impl RendererView {
    /// The frame remembered is well formed.
    pub open spec fn inv(self) -> bool {
        self.previous matches Some(p) ==> p.wf()
    }
}

impl Default for Renderer {
    fn default() -> (r: Self)
        ensures
            r@ == (RendererView {
                previous: None,
                seen: 0,
                shape: None,
                depth: Depth::Rgb,
                output: Seq::empty(),
            }),
    {
        Self::with_depth(Depth::Rgb)
    }
}

impl Renderer {
    /// Map colors to what the receiving terminal can show.
    pub fn with_depth(depth: Depth) -> (r: Self)
        ensures
            r@ == (RendererView {
                previous: None,
                seen: 0,
                shape: None,
                depth,
                output: Seq::empty(),
            }),
    {
        Renderer { shadow: Shadow::new(depth) }
    }

    /// Forget physical contents, for example after an external terminal
    /// write, and the cursor, which leaving a session resets.
    pub fn invalidate(&mut self)
        ensures
            final(self)@ == (RendererView { previous: None, seen: 0, shape: None, ..old(self)@ }),
    {
        self.shadow.previous = None;
        self.shadow.forget_cursor();
    }

    /// The bytes that bring the terminal from the last frame to `frame`,
    /// as one synchronized update; empty when nothing differs. Rows the
    /// renderer has no record of are written whole, with trailing blanks
    /// erased.
    ///
    /// The renderer assumes the bytes arrive: send them in one write, and
    /// call `invalidate` if it fails. The slice is reused by the next call.
    pub fn render(&mut self, frame: &Buffer) -> (r: &[u8])
        requires
            old(self)@.inv(),
            frame@.wf(),
        ensures
            final(self)@ == render_spec(old(self)@, frame@),
            final(self)@.inv(),
            r@ == final(self)@.output,
    {
        if self.shadow.drawn(frame) {
            self.shadow.output.clear();
            return self.shadow.output.as_slice();
        }
        let mut previous: Option<Buffer> = None;
        std::mem::swap(&mut previous, &mut self.shadow.previous);
        let same_area = match &previous {
            Some(p) => p.area() == frame.area(),
            None => false,
        };
        let last: Option<&Buffer> = if same_area {
            match &previous {
                Some(p) => Some(p),
                None => None,
            }
        } else {
            None
        };
        let cursor_changed = self.shadow.cursor_changed(frame, last);
        let mut pen = self.shadow.begin();
        let ghost start = self.shadow.output@;
        match last {
            Some(p) => write_changes(&mut pen, &mut self.shadow.output, frame, p),
            None => write_full(&mut pen, &mut self.shadow.output, frame),
        }
        if self.shadow.output.len() == 14 && !cursor_changed {
            self.shadow.keep(frame, previous);
        } else {
            self.shadow.finish(pen, frame, previous, frame.cursor());
        }
        self.shadow.output.as_slice()
    }

    /// Emit changed cells as one synchronized update, appended to `out` in
    /// a single piece.
    pub fn draw(&mut self, out: &mut Vec<u8>, frame: &Buffer)
        requires
            old(self)@.inv(),
            frame@.wf(),
        ensures
            final(self)@ == render_spec(old(self)@, frame@),
            final(self)@.inv(),
            final(out)@ == old(out)@ + final(self)@.output,
    {
        let bytes = self.render(frame);
        extend(out, bytes);
    }

    /// Emit changed cells through `deliver`, which hands them to the
    /// terminal in one piece and reports whether that worked. A failed
    /// delivery leaves the terminal's contents unknown, so the renderer
    /// forgets them and the next frame is written whole.
    pub fn send<E, F: FnOnce(&[u8]) -> Result<(), E>>(&mut self, frame: &Buffer, deliver: F) -> (r: Result<(), E>)
        requires
            old(self)@.inv(),
            frame@.wf(),
            forall|b: &[u8]| deliver.requires((b,)),
        ensures
            exists|b: &[u8]| b@ == render_spec(old(self)@, frame@).output && deliver.ensures((b,), r),
            r is Ok ==> final(self)@ == render_spec(old(self)@, frame@),
            r is Err ==> final(self)@ == (RendererView {
                previous: None,
                seen: 0,
                shape: None,
                ..render_spec(old(self)@, frame@)
            }),
            final(self)@.inv(),
    {
        let bytes = self.render(frame);
        let ghost w = bytes;
        let result = deliver(bytes);
        assert(w@ == render_spec(old(self)@, frame@).output && deliver.ensures((w,), result));
        if result.is_err() {
            self.invalidate();
        }
        result
    }

    /// Whether `frame` is the one last rendered, so `render` would return
    /// no bytes without comparing a cell.
    pub fn current(&self, frame: &Buffer) -> (r: bool)
        ensures
            r == (frame@.version != 0 && frame@.version == self@.seen),
    {
        self.shadow.drawn(frame)
    }
}

} // verus!
