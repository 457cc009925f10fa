//! Inline output: frames grow downward on the main screen and their head
//! scrolls into the terminal's own history.
//!
//! A frame is a logical column of rows that may be taller than the screen.
//! `top + row` maps a frame row onto a screen row; `top` goes negative as the
//! frame outgrows the screen. Rows above the screen belong to the terminal and
//! are never rewritten, so only the reachable suffix of a frame is compared.
//!
//! `commit` releases finished rows: they stay where they are and later frames
//! start beneath them. The released rows still on screen are kept until they
//! scroll past the top, so a repaint after a resize puts them back above the
//! frame.
//!
//! Absolute positioning starts with a carriage return, so it never depends on
//! the terminal's pending-wrap state.
use crate::buffer::{copy_row, owner, row_view, row_wf, Buffer, BufferView, Cell, CellView, CursorShape};
use crate::output::{decimal, extend, push_decimal};
use crate::pen::{begin_bytes, finish_bytes, frame_view, hide_bytes, row_bytes, Depth, Pen, Shadow};
use std::collections::VecDeque;
use vstd::prelude::*;

verus! {

/// The larger of two integers.
pub open spec fn max(a: int, b: int) -> int {
    if a >= b { a } else { b }
}

/// The smaller of two integers.
pub open spec fn min(a: int, b: int) -> int {
    if a <= b { a } else { b }
}

/// What an inline renderer remembers: where frame row zero sits on the
/// screen, the screen's size at the last draw, whether positions are
/// unknown, the committed rows still on screen, oldest first, and what the
/// terminal was last shown.
pub struct InlineView {
    pub top: int,
    pub screen: Option<(u16, u16)>,
    pub redraw: bool,
    pub kept: Seq<Seq<CellView>>,
    pub previous: Option<BufferView>,
    pub seen: u64,
    pub shape: Option<CursorShape>,
    pub depth: Depth,
    pub output: Seq<u8>,
}

/// The rows of the last frame, or none.
pub open spec fn frame_len(previous: Option<BufferView>) -> int {
    match previous {
        Some(p) => p.height as int,
        None => 0,
    }
}

impl InlineView {
    /// Rows in the last frame, less any committed.
    pub open spec fn len(self) -> int {
        frame_len(self.previous)
    }

    /// What the renderer keeps true between calls: the frames and rows it
    /// holds are well formed, positions stay within a few screens of the
    /// origin, no more rows are kept than fit above the frame, and before
    /// the first draw nothing is held.
    pub open spec fn inv(self) -> bool {
        &&& self.previous matches Some(p) ==> p.wf()
        &&& forall|i: int|
            0 <= i < self.kept.len() ==> row_wf(#[trigger] self.kept[i]) && self.kept[i].len()
                <= u16::MAX
        &&& -65536 <= self.top
        &&& self.top + self.len() <= 131072
        &&& self.kept.len() <= max(self.top, 0)
        &&& self.screen is None ==> self.previous is None && self.kept.len() == 0
    }
}

/// Kept rows that have scrolled past the top of the screen are dropped:
/// they belong to the scrollback now.
pub open spec fn trimmed(kept: Seq<Seq<CellView>>, top: int) -> Seq<Seq<CellView>> {
    let excess = kept.len() - max(top, 0);
    if excess > 0 {
        kept.skip(excess)
    } else {
        kept
    }
}

/// A frame with its first `n` rows split off; the cursor moves up with the
/// rest, or goes when it was on a row split off.
pub open spec fn without_head(p: BufferView, n: int) -> BufferView {
    BufferView {
        height: (p.height - n) as nat,
        rows: p.rows.skip(n),
        cursor: match p.cursor {
            Some((x, y)) => if y >= n {
                Some((x, (y - n) as u16))
            } else {
                None
            },
            None => None,
        },
        ..p
    }
}

/// Releasing the first `rows` rows of the last frame: they join the kept
/// rows, the frame starts beneath them, and the next draw compares again.
pub open spec fn commit_spec(s: InlineView, rows: u16) -> InlineView {
    match s.previous {
        None => s,
        Some(p) => {
            let n = min(rows as int, p.height as int);
            let top = s.top + n;
            InlineView {
                top,
                kept: trimmed(s.kept + p.rows.take(n), top),
                previous: Some(if n > 0 { without_head(p, n) } else { p }),
                seen: 0,
                ..s
            }
        },
    }
}

/// Where to leave the cursor when a session ends: on a one-based screen
/// row, then on a fresh line beneath it. The default moves nothing.
#[derive(Clone, Copy, Debug, PartialEq, Eq, Structural)]
pub struct Park {
    pub row: Option<u16>,
    pub newline: bool,
}

impl Default for Park {
    fn default() -> (p: Self)
        ensures
            p == (Park { row: None, newline: false }),
    {
        Park { row: None, newline: false }
    }
}

/// `CR ESC [ row ; 1 H`, to the first column of a one-based screen row.
pub open spec fn row_start(row: nat) -> Seq<u8> {
    seq![0x0du8, 0x1b, 0x5b] + decimal(row) + seq![0x3bu8, 0x31, 0x48]
}

/// The bytes of a cursor movement to a parking place.
pub open spec fn park_bytes(p: Park) -> Seq<u8> {
    (match p.row {
        Some(row) => row_start(row as nat),
        None => Seq::empty(),
    }) + if p.newline {
        seq![0x0du8, 0x0a]
    } else {
        Seq::empty()
    }
}

/// Append the bytes that go to the first column of a one-based row.
fn push_row_start(out: &mut Vec<u8>, row: u64)
    ensures
        final(out)@ == old(out)@ + row_start(row as nat),
{
    extend(out, &[0x0d, 0x1b, 0x5b]);
    push_decimal(out, row);
    extend(out, &[0x3b, 0x31, 0x48]);
    assert(out@ =~= old(out)@ + row_start(row as nat));
}

impl Park {
    /// Write the cursor movement. It needs no terminal state, so it is safe
    /// to send from a panic hook or signal thread.
    pub fn write(self, out: &mut Vec<u8>)
        ensures
            final(out)@ == old(out)@ + park_bytes(self),
    {
        match self.row {
            Some(row) => push_row_start(out, row as u64),
            None => {},
        }
        if self.newline {
            extend(out, &[0x0d, 0x0a]);
        }
        assert(out@ =~= old(out)@ + park_bytes(self));
    }
}

/// Where parking puts the cursor: nowhere before the first draw, else on a
/// fresh line beneath the last frame, kept on the screen.
pub open spec fn parking_spec(s: InlineView) -> Park {
    match s.screen {
        None => Park { row: None, newline: false },
        Some((_, h)) => {
            let rows = max(h as int, 1);
            let len = s.len();
            if len == 0 && s.top < rows {
                Park { row: Some(max(1, min(s.top + 1, rows)) as u16), newline: false }
            } else if len == 0 {
                Park { row: Some(rows as u16), newline: true }
            } else {
                Park { row: Some(max(1, min(s.top + len, rows)) as u16), newline: true }
            }
        },
    }
}

/// The number of cells of a row that fit in `width` columns without
/// splitting a wide grapheme.
pub open spec fn crop_len(r: Seq<CellView>, width: int) -> int {
    if r.len() <= width {
        r.len() as int
    } else if r[width].width == 0 {
        owner(r, width)
    } else {
        width
    }
}

/// Where a continuation cell's grapheme starts, it is not itself a
/// continuation, and nothing before it reaches past the cell.
proof fn owner_is_lead(r: Seq<CellView>, x: int)
    requires
        row_wf(r),
        0 <= x < r.len(),
    ensures
        0 <= owner(r, x) <= x,
        r[owner(r, x)].width > 0,
    decreases x,
{
    if x > 0 && r[x].width == 0 {
        owner_is_lead(r, x - 1);
    } else if r[x].width == 0 {
        let k = choose|k: int| crate::buffer::covers(r, k, x);
        assert(crate::buffer::covers(r, k, x));
    }
}

/// Cutting a row just before a grapheme keeps it well formed.
proof fn cut_wf(r: Seq<CellView>, end: int)
    requires
        row_wf(r),
        0 <= end <= r.len(),
        end < r.len() ==> r[end].width > 0,
    ensures
        row_wf(r.take(end)),
{
    let t = r.take(end);
    assert forall|i: int| 0 <= i < t.len() && t[i].width > 0 implies i + #[trigger] t[i].width
        <= t.len() by {
        assert(t[i] == r[i]);
        if i + r[i].width > end {
            assert(r[end].width == 0 && r[i].width > 0);
        }
    }
    assert forall|j: int| 0 <= j < t.len() && (#[trigger] t[j]).width == 0 implies exists|k: int|
        crate::buffer::covers(t, k, j) by {
        assert(t[j] == r[j]);
        let k = choose|k: int| crate::buffer::covers(r, k, j);
        assert(crate::buffer::covers(r, k, j));
        assert(t[k] == r[k]);
        assert(crate::buffer::covers(t, k, j));
    }
}

/// A row cut to `width` cells without splitting a wide grapheme.
pub fn crop(row: &[Cell], width: usize) -> (r: &[Cell])
    requires
        row_wf(row@.map_values(|c: Cell| c@)),
    ensures
        0 <= crop_len(row@.map_values(|c: Cell| c@), width as int) <= row@.len(),
        r@ == row@.take(crop_len(row@.map_values(|c: Cell| c@), width as int)),
        row_wf(r@.map_values(|c: Cell| c@)),
{
    let ghost v = row@.map_values(|c: Cell| c@);
    if row.len() <= width {
        proof {
            assert(row@.take(row@.len() as int) =~= row@);
        }
        return row;
    }
    let mut end = width;
    while end > 0 && row[end].width() == 0
        invariant
            end <= width < row@.len(),
            v == row@.map_values(|c: Cell| c@),
            owner(v, width as int) == owner(v, end as int),
        decreases end,
    {
        assert(v[end as int] == row@[end as int]@);
        end = end - 1;
    }
    proof {
        assert(v[end as int] == row@[end as int]@);
        assert(v[width as int] == row@[width as int]@);
    }
    let cut = row[width].width() == 0;
    let n = if cut { end } else { width };
    proof {
        if cut {
            owner_is_lead(v, width as int);
        }
        cut_wf(v, n as int);
        assert(row@.take(n as int).map_values(|c: Cell| c@) =~= v.take(n as int));
    }
    &row[0..n]
}

/// What an optional borrowed frame holds.
pub open spec fn opt_view(b: Option<&Buffer>) -> Option<BufferView> {
    match b {
        Some(b) => Some(b@),
        None => None,
    }
}

/// Whether frame row `i` is the same as row `i` of the last frame; a row
/// that either lacks is not.
pub open spec fn same_row_spec(frame: BufferView, old: Option<BufferView>, i: int) -> bool {
    match old {
        Some(o) => 0 <= i < frame.rows.len() && i < o.rows.len() && frame.rows[i] == o.rows[i],
        None => false,
    }
}

/// The first row in `lo..hi` that differs from the last frame.
pub open spec fn first_changed(frame: BufferView, old: Option<BufferView>, lo: int, hi: int) -> Option<
    int,
>
    decreases hi - lo,
{
    if lo >= hi {
        None
    } else if !same_row_spec(frame, old, lo) {
        Some(lo)
    } else {
        first_changed(frame, old, lo + 1, hi)
    }
}

/// `ESC [ K`, which erases to the end of the line.
pub open spec fn erase_line() -> Seq<u8> {
    seq![0x1bu8, 0x5b, 0x4b]
}

/// Kept rows from `i` on, the first of them, `skip`, at the top of the
/// screen: each cropped to `width`, and erased past its end when shorter.
pub open spec fn repaint_rows(depth: Depth, kept: Seq<Seq<CellView>>, skip: int, width: int, i: int) -> Seq<
    u8,
>
    decreases kept.len() - i,
{
    if i < 0 || i >= kept.len() {
        Seq::empty()
    } else {
        let r = kept[i].take(crop_len(kept[i], width));
        row_start((i - skip + 1) as nat) + row_bytes(depth, None, r) + (if r.len() < width {
            erase_line()
        } else {
            Seq::empty()
        }) + repaint_rows(depth, kept, skip, width, i + 1)
    }
}

/// Frame rows from `i` on, each on the line after the one before, the
/// first of them, `first`, where the cursor is.
pub open spec fn flow_rows(depth: Depth, rows: Seq<Seq<CellView>>, first: int, i: int) -> Seq<u8>
    decreases rows.len() - i,
{
    if i < 0 || i >= rows.len() {
        Seq::empty()
    } else {
        (if i > first {
            seq![0x0du8, 0x0a]
        } else {
            Seq::empty()
        }) + row_bytes(depth, None, rows[i]) + flow_rows(depth, rows, first, i + 1)
    }
}

/// Print from row `first`, at screen row `position`, and let the terminal
/// scroll, so every row reaches history with its final content. A row one
/// past the bottom scrolls in with one newline.
pub open spec fn flow_bytes(depth: Depth, frame: BufferView, rows: int, first: int, position: int) -> Seq<
    u8,
> {
    (if position >= rows {
        row_start(rows as nat) + seq![0x0au8]
    } else {
        row_start((position + 1) as nat)
    }) + flow_rows(depth, frame.rows, first, first)
}

/// Screen rows from `row` to `end`, frame row zero at `top`: each that
/// differs from the last frame written whole, on the next line when the
/// row above was just written, else after moving there. Rows past the
/// frame's end are erased.
pub open spec fn rewrite_rows(
    depth: Depth,
    frame: BufferView,
    old: Option<BufferView>,
    top: int,
    end: int,
    written: Option<int>,
    row: int,
) -> Seq<u8>
    decreases end - row,
{
    if row >= end {
        Seq::empty()
    } else {
        let index = row - top;
        if same_row_spec(frame, old, index) {
            rewrite_rows(depth, frame, old, top, end, written, row + 1)
        } else {
            let pre = if written == Some(row - 1) {
                seq![0x0du8, 0x0a]
            } else {
                row_start((row + 1) as nat)
            };
            let cells = if 0 <= index < frame.rows.len() {
                frame.rows[index]
            } else {
                Seq::empty()
            };
            pre + row_bytes(depth, None, cells) + rewrite_rows(
                depth,
                frame,
                old,
                top,
                end,
                Some(row),
                row + 1,
            )
        }
    }
}

/// `n` newlines.
pub open spec fn newlines(n: nat) -> Seq<u8> {
    Seq::new(n, |i: int| 0x0au8)
}

/// Scroll growth in with newlines, then rewrite the rows that differ from
/// the last frame, and the stale rows beneath a frame that shrank.
pub open spec fn rewrite_bytes(
    depth: Depth,
    frame: BufferView,
    old: Option<BufferView>,
    rows: int,
    scroll: int,
    stale: int,
    top1: int,
) -> Seq<u8> {
    let top = top1 - scroll;
    (if scroll > 0 {
        row_start(rows as nat) + newlines(scroll as nat)
    } else {
        Seq::empty()
    }) + rewrite_rows(
        depth,
        frame,
        old,
        top,
        min(rows, max(stale - scroll, top + frame.height)),
        None,
        max(top, 0),
    )
}

/// The frame's cursor on the screen, when it is on it.
pub open spec fn cursor_on_screen(cursor: Option<(u16, u16)>, top: int, rows: int) -> Option<(u16, u16)> {
    match cursor {
        Some((x, y)) => if 0 <= top + y < rows {
            Some((x, (top + y) as u16))
        } else {
            None
        },
        None => None,
    }
}

/// Whether `frame` is the one last rendered, on a screen of the same size.
pub open spec fn current_spec(s: InlineView, frame: BufferView, height: u16) -> bool {
    &&& frame.version != 0
    &&& frame.version == s.seen
    &&& !s.redraw
    &&& s.screen == Some((frame.width as u16, height))
}

/// The bytes and the memory an inline renderer has after rendering `frame`
/// on a screen `height` rows tall.
pub open spec fn render_spec(s: InlineView, frame: BufferView, height: u16) -> InlineView {
    if current_spec(s, frame, height) {
        InlineView { output: Seq::empty(), ..s }
    } else {
        let rows = max(height as int, 1);
        let len = frame.height as int;
        let screen = Some((frame.width as u16, height));
        let redraw = s.redraw || (s.screen is Some && s.screen != screen);
        let top0 = if s.screen is None {
            min(s.top, rows - 1)
        } else {
            s.top
        };
        let old = if redraw {
            None
        } else {
            s.previous
        };
        let old_len = frame_len(old);
        let first = first_changed(frame, old, max(-top0, 0), max(len, old_len));
        let cursor_changed = Some(frame.shape) != s.shape || match old {
            Some(o) => o.cursor != frame.cursor,
            None => true,
        };
        if first is None && !cursor_changed && !redraw {
            InlineView { top: top0, screen, seen: frame.version, output: Seq::empty(), ..s }
        } else {
            draw_spec(InlineView { top: top0, screen, ..s }, frame, rows, redraw, first)
        }
    }
}

/// The rows written after any repaint: frame row zero at screen row
/// `top1` before the frame is placed, rows to `stale` possibly holding
/// what the last frame left. Growth whose first changed row would scroll
/// away flows from that row; otherwise growth scrolls in and the changed
/// rows are rewritten.
#[verifier::opaque]
pub open spec fn body_bytes(
    depth: Depth,
    frame: BufferView,
    old: Option<BufferView>,
    rows: int,
    first: Option<int>,
    top1: int,
    stale: int,
) -> Seq<u8> {
    let top = min(top1, rows - frame.height);
    let scroll = top1 - top;
    match first {
        Some(f) => if scroll > 0 && top + f < 0 {
            flow_bytes(depth, frame, rows, f, top1 + f)
        } else {
            rewrite_bytes(depth, frame, old, rows, scroll, stale, top1)
        },
        None => rewrite_bytes(depth, frame, old, rows, scroll, stale, top1),
    }
}

/// Drawing `frame` on a screen `rows` tall from the state `t`, whose
/// positions are unknown when `redraw`, and whose first changed row is
/// `first`. Unknown positions, or a shrinking frame that fills the screen,
/// repaint the committed rows that fit from the top of the screen, and
/// every visible row is then stale.
#[verifier::opaque]
pub open spec fn draw_spec(t: InlineView, frame: BufferView, rows: int, redraw: bool, first: Option<int>) -> InlineView {
    let len = frame.height as int;
    let old = if redraw {
        None
    } else {
        t.previous
    };
    let old_len = frame_len(old);
    let repaint = redraw || (len < old_len && (t.top + len <= 0 || len >= rows));
    let top1 = if repaint {
        min(rows - len, t.kept.len() as int)
    } else {
        t.top
    };
    let skip = t.kept.len() - max(top1, 0);
    let head = if repaint {
        repaint_rows(t.depth, t.kept, skip, frame.width as int, skip)
    } else {
        Seq::empty()
    };
    let old1 = if repaint {
        None
    } else {
        old
    };
    let stale = if repaint {
        rows
    } else {
        t.top + old_len
    };
    let top = min(top1, rows - len);
    InlineView {
        top,
        redraw: false,
        kept: trimmed(t.kept, top),
        previous: Some(frame),
        seen: frame.version,
        shape: Some(frame.shape),
        output: begin_bytes() + hide_bytes() + head + body_bytes(t.depth, frame, old1, rows, first, top1, stale)
            + finish_bytes(None, t.shape, frame.shape, cursor_on_screen(frame.cursor, top, rows)),
        ..t
    }
}

/// The first changed row lies in the range searched.
proof fn first_changed_in_range(frame: BufferView, old: Option<BufferView>, lo: int, hi: int)
    ensures
        first_changed(frame, old, lo, hi) matches Some(i) ==> lo <= i < hi,
    decreases hi - lo,
{
    if lo < hi && same_row_spec(frame, old, lo) {
        first_changed_in_range(frame, old, lo + 1, hi);
    }
}

/// Whether frame row `i` is the same as row `i` of the last frame.
fn same_row_at(frame: &Buffer, old: Option<&Buffer>, i: i64) -> (r: bool)
    requires
        frame@.wf(),
        old matches Some(o) ==> o@.wf(),
    ensures
        r == same_row_spec(frame@, opt_view(old), i as int),
{
    match old {
        Some(o) => 0 <= i && i < frame.area().height as i64 && i < o.area().height as i64
            && frame.same_row(o, i as u16),
        None => false,
    }
}

/// The first row in `lo..hi` that differs from the last frame.
fn find_changed(frame: &Buffer, old: Option<&Buffer>, lo: i64, hi: i64) -> (r: Option<i64>)
    requires
        frame@.wf(),
        old matches Some(o) ==> o@.wf(),
    ensures
        first_view(r) == first_changed(frame@, opt_view(old), lo as int, hi as int),
        r matches Some(i) ==> lo <= i < hi,
{
    let mut i = lo;
    while i < hi
        invariant
            lo <= i,
            i < hi ==> first_changed(frame@, opt_view(old), lo as int, hi as int) == first_changed(
                frame@,
                opt_view(old),
                i as int,
                hi as int,
            ),
            i >= hi ==> first_changed(frame@, opt_view(old), lo as int, hi as int) is None,
            frame@.wf(),
            old matches Some(o) ==> o@.wf(),
        decreases hi - i,
    {
        if !same_row_at(frame, old, i) {
            return Some(i);
        }
        i = i + 1;
    }
    None
}

/// Every kept row is well formed and fits a terminal's width.
pub open spec fn kept_wf(kept: Seq<Seq<CellView>>) -> bool {
    forall|i: int| 0 <= i < kept.len() ==> row_wf(#[trigger] kept[i]) && kept[i].len() <= u16::MAX
}

/// Write the kept rows from `skip` on at the top of the screen. The
/// terminal has reflowed rows kept from another width, if it reflows at
/// all; they are cropped or padded, not rewrapped.
fn repaint(pen: &mut Pen, out: &mut Vec<u8>, kept: &VecDeque<Vec<Cell>>, skip: usize, width: usize)
    requires
        old(pen).open_spec() is None,
        skip <= kept@.len(),
        kept_wf(kept_view(kept@)),
    ensures
        final(out)@ == old(out)@ + repaint_rows(
            old(pen).depth_spec(),
            kept_view(kept@),
            skip as int,
            width as int,
            skip as int,
        ),
        final(pen).open_spec() is None,
        final(pen).depth_spec() == old(pen).depth_spec(),
{
    let ghost depth = pen.depth_spec();
    let ghost k = kept_view(kept@);
    let ghost start = out@;
    let mut i = skip;
    while i < kept.len()
        invariant
            skip <= i <= kept@.len(),
            k == kept_view(kept@),
            kept_wf(k),
            pen.open_spec() is None,
            pen.depth_spec() == depth,
            out@ + repaint_rows(depth, k, skip as int, width as int, i as int) == start
                + repaint_rows(depth, k, skip as int, width as int, skip as int),
        decreases kept@.len() - i,
    {
        let ghost before = out@;
        push_row_start(out, (i - skip + 1) as u64);
        let full = kept[i].as_slice();
        let ghost fv = full@.map_values(|c: Cell| c@);
        assert(fv == k[i as int]);
        assert(row_wf(k[i as int]) && k[i as int].len() <= u16::MAX);
        let row = crop(full, width);
        let ghost r = k[i as int].take(crop_len(k[i as int], width as int));
        assert(row@ == full@.take(crop_len(fv, width as int)));
        assert(row@.map_values(|c: Cell| c@) =~= r);
        pen.row(out, row);
        if row.len() < width {
            extend(out, &[0x1b, 0x5b, 0x4b]);
        }
        assert(out@ + repaint_rows(depth, k, skip as int, width as int, i + 1) =~= before
            + repaint_rows(depth, k, skip as int, width as int, i as int));
        i = i + 1;
    }
}

/// Write frame rows from `first`, at screen row `position`, letting the
/// terminal scroll.
fn flow(pen: &mut Pen, out: &mut Vec<u8>, frame: &Buffer, rows: i64, first: i64, position: i64)
    requires
        frame@.wf(),
        old(pen).open_spec() is None,
        1 <= rows <= u16::MAX,
        0 <= first,
        0 <= position <= 1000000,
    ensures
        final(out)@ == old(out)@ + flow_bytes(
            old(pen).depth_spec(),
            frame@,
            rows as int,
            first as int,
            position as int,
        ),
        final(pen).open_spec() is None,
        final(pen).depth_spec() == old(pen).depth_spec(),
{
    let ghost depth = pen.depth_spec();
    let ghost fr = frame@.rows;
    if position >= rows {
        push_row_start(out, rows as u64);
        out.push(0x0a);
    } else {
        push_row_start(out, (position + 1) as u64);
    }
    let ghost start = out@;
    let len = frame.area().height as i64;
    let mut i = first;
    while i < len
        invariant
            0 <= first <= i,
            len == frame@.height,
            frame@.wf(),
            fr == frame@.rows,
            pen.open_spec() is None,
            pen.depth_spec() == depth,
            i <= len || i == first,
            out@ + flow_rows(depth, fr, first as int, i as int) == start + flow_rows(
                depth,
                fr,
                first as int,
                first as int,
            ),
        decreases len - i,
    {
        let ghost before = out@;
        if i > first {
            extend(out, &[0x0d, 0x0a]);
        }
        pen.row(out, frame.row(i as u16));
        assert(out@ + flow_rows(depth, fr, first as int, i + 1) =~= before + flow_rows(
            depth,
            fr,
            first as int,
            i as int,
        ));
        i = i + 1;
    }
    assert(out@ =~= old(out)@ + flow_bytes(depth, frame@, rows as int, first as int, position as int));
}

/// What a written row number holds, as a number.
pub open spec fn written_view(w: Option<i64>) -> Option<int> {
    match w {
        Some(r) => Some(r as int),
        None => None,
    }
}

/// Write frame row `index` whole at screen row `row`: on the next line when
/// the row above was just written, else after moving there. A row past the
/// frame's end is erased.
fn write_screen_row(
    pen: &mut Pen,
    out: &mut Vec<u8>,
    frame: &Buffer,
    none: &Vec<Cell>,
    index: i64,
    row: i64,
    follows: bool,
)
    requires
        frame@.wf(),
        none@.len() == 0,
        old(pen).open_spec() is None,
        0 <= row <= 3000000,
    ensures
        final(out)@ == old(out)@ + (if follows {
            seq![0x0du8, 0x0a]
        } else {
            row_start((row + 1) as nat)
        }) + row_bytes(
            old(pen).depth_spec(),
            None,
            if 0 <= index < frame@.rows.len() {
                frame@.rows[index as int]
            } else {
                Seq::empty()
            },
        ),
        final(pen).open_spec() is None,
        final(pen).depth_spec() == old(pen).depth_spec(),
{
    if follows {
        extend(out, &[0x0d, 0x0a]);
    } else {
        push_row_start(out, (row + 1) as u64);
    }
    if 0 <= index && index < frame.area().height as i64 {
        pen.row(out, frame.row(index as u16));
    } else {
        let cells = none.as_slice();
        assert(cells@.map_values(|c: Cell| c@) =~= Seq::<CellView>::empty());
        pen.row(out, cells);
    }
}

/// Scroll growth in with newlines, then rewrite only the rows that differ
/// from the last frame, and the stale rows beneath a frame that shrank.
fn rewrite(
    pen: &mut Pen,
    out: &mut Vec<u8>,
    frame: &Buffer,
    last: Option<&Buffer>,
    rows: i64,
    scroll: i64,
    stale: i64,
    top1: i64,
)
    requires
        frame@.wf(),
        last matches Some(o) ==> o@.wf(),
        old(pen).open_spec() is None,
        1 <= rows <= u16::MAX,
        0 <= scroll <= 1000000,
        -1000000 <= stale <= 1000000,
        -1000000 <= top1 <= 1000000,
    ensures
        final(out)@ == old(out)@ + rewrite_bytes(
            old(pen).depth_spec(),
            frame@,
            opt_view(last),
            rows as int,
            scroll as int,
            stale as int,
            top1 as int,
        ),
        final(pen).open_spec() is None,
        final(pen).depth_spec() == old(pen).depth_spec(),
{
    let ghost depth = pen.depth_spec();
    let ghost o = opt_view(last);
    if scroll > 0 {
        push_row_start(out, rows as u64);
        let ghost mid = out@;
        let mut k: i64 = 0;
        while k < scroll
            invariant
                0 <= k <= scroll,
                out@ == mid + newlines(k as nat),
            decreases scroll - k,
        {
            out.push(0x0a);
            assert(out@ =~= mid + newlines((k + 1) as nat));
            k = k + 1;
        }
    }
    let ghost start = out@;
    let top = top1 - scroll;
    let len = frame.area().height as i64;
    let low = stale - scroll;
    let high = if low >= top + len { low } else { top + len };
    let end = if rows <= high { rows } else { high };
    let mut written: Option<i64> = None;
    let mut row: i64 = if top >= 0 { top } else { 0 };
    let ghost first_row = row as int;
    let none: Vec<Cell> = Vec::new();
    while row < end
        invariant
            first_row <= row,
            0 <= row <= 3000000,
            row <= end || row == first_row,
            end <= rows,
            1 <= rows <= u16::MAX,
            top == top1 - scroll,
            -3000000 <= top <= 3000000,
            len == frame@.height,
            frame@.wf(),
            last matches Some(b) ==> b@.wf(),
            o == opt_view(last),
            none@.len() == 0,
            pen.open_spec() is None,
            pen.depth_spec() == depth,
            written matches Some(w) ==> 0 <= w < row,
            out@ + rewrite_rows(depth, frame@, o, top as int, end as int, written_view(written), row as int)
                == start + rewrite_rows(depth, frame@, o, top as int, end as int, None, first_row),
        decreases end - row,
    {
        let ghost before = out@;
        let ghost w0 = written_view(written);
        let index = row - top;
        if !same_row_at(frame, last, index) {
            let follows = match written {
                Some(w) => w == row - 1,
                None => false,
            };
            write_screen_row(pen, out, frame, &none, index, row, follows);
            written = Some(row);
            assert(out@ + rewrite_rows(depth, frame@, o, top as int, end as int, written_view(written), row + 1)
                =~= before + rewrite_rows(depth, frame@, o, top as int, end as int, w0, row as int));
        }
        row = row + 1;
    }
    assert(out@ =~= old(out)@ + rewrite_bytes(depth, frame@, o, rows as int, scroll as int, stale as int, top1 as int));
}

/// A row number found, as a number.
pub open spec fn first_view(f: Option<i64>) -> Option<int> {
    match f {
        Some(i) => Some(i as int),
        None => None,
    }
}

/// Write the rows after any repaint, frame row zero at screen row `top1`
/// until the frame is placed; returns where it is placed.
fn write_body(
    pen: &mut Pen,
    out: &mut Vec<u8>,
    frame: &Buffer,
    last: Option<&Buffer>,
    rows: i64,
    first: Option<i64>,
    top1: i64,
    stale: i64,
) -> (top: i64)
    requires
        frame@.wf(),
        last matches Some(o) ==> o@.wf(),
        old(pen).open_spec() is None,
        1 <= rows <= u16::MAX,
        -200000 <= top1 <= 200000,
        -200000 <= stale <= 200000,
        first matches Some(f) ==> 0 <= f <= u16::MAX && (top1 + f >= 0 || top1 <= rows
            - frame@.height),
    ensures
        final(out)@ == old(out)@ + body_bytes(
            old(pen).depth_spec(),
            frame@,
            opt_view(last),
            rows as int,
            first_view(first),
            top1 as int,
            stale as int,
        ),
        top == min(top1 as int, rows - frame@.height),
        final(pen).open_spec() is None,
        final(pen).depth_spec() == old(pen).depth_spec(),
{
    proof {
        reveal(body_bytes);
    }
    let len = frame.area().height as i64;
    let top = if top1 <= rows - len { top1 } else { rows - len };
    let scroll = top1 - top;
    match first {
        Some(f) => {
            if scroll > 0 && top + f < 0 {
                flow(pen, out, frame, rows, f, top1 + f);
            } else {
                rewrite(pen, out, frame, last, rows, scroll, stale, top1);
            }
        },
        None => rewrite(pen, out, frame, last, rows, scroll, stale, top1),
    }
    top
}

/// A frame compared with itself has no changed row.
proof fn no_row_changed(frame: BufferView, lo: int, hi: int)
    requires
        0 <= lo,
        hi <= frame.rows.len(),
    ensures
        first_changed(frame, Some(frame), lo, hi) is None,
    decreases hi - lo,
{
    if lo < hi {
        no_row_changed(frame, lo + 1, hi);
    }
}

/// Drawing the frame just drawn, on a screen of the same height, writes
/// nothing: its version names it, or every reachable row and the cursor
/// match what the screen shows.
pub proof fn render_again_is_silent(s: InlineView, frame: BufferView, height: u16)
    requires
        s.inv(),
        frame.wf(),
    ensures
        render_spec(render_spec(s, frame, height), frame, height).output.len() == 0,
{
    reveal(draw_spec);
    let t = render_spec(s, frame, height);
    let top = t.top;
    no_row_changed(frame, max(-top, 0), frame.height as int);
}

/// Committing leaves every row where it is: the rows still in the frame
/// keep their screen rows, the frame's first row now sits directly beneath
/// the rows released, and the rows released are kept while they are on
/// screen.
pub proof fn commit_keeps_rows_in_place(s: InlineView, rows: u16, i: int)
    requires
        s.inv(),
        s.previous is Some,
        0 <= i < commit_spec(s, rows).len(),
    ensures
        commit_spec(s, rows).top + i == s.top + (i + (s.len() - commit_spec(s, rows).len())),
        commit_spec(s, rows).previous.unwrap().rows[i] == s.previous.unwrap().rows[i + (s.len()
            - commit_spec(s, rows).len())],
        commit_spec(s, rows).kept.len() <= max(commit_spec(s, rows).top, 0),
{
}

/// Parking never leaves the screen: the row it moves to is between the
/// first screen row and the last.
pub proof fn parking_stays_on_screen(s: InlineView)
    requires
        s.inv(),
        s.screen is Some,
    ensures
        parking_spec(s).row matches Some(r) && 1 <= r <= max(s.screen.unwrap().1 as int, 1),
{
}

/// Writes inline frames to any byte sink. Does not acquire terminal modes.
pub struct Inline {
    /// Screen row of frame row zero; negative once the head has scrolled away.
    top: i64,
    /// Screen dimensions at the last draw. A change invalidates every position.
    screen: Option<(u16, u16)>,
    /// Positions are unknown; the next draw repaints every visible row.
    redraw: bool,
    /// Committed rows still on screen, oldest first, directly above the
    /// frame: they occupy the screen rows just above `top`.
    kept: VecDeque<Vec<Cell>>,
    /// The last frame drawn, minus any committed rows, and the cursor the
    /// terminal was last told to show.
    shadow: Shadow,
}

/// The cells of each kept row.
pub open spec fn kept_view(kept: Seq<Vec<Cell>>) -> Seq<Seq<CellView>> {
    kept.map_values(|r: Vec<Cell>| row_view(r))
}

impl View for Inline {
    type V = InlineView;

    closed spec fn view(&self) -> InlineView {
        InlineView {
            top: self.top as int,
            screen: self.screen,
            redraw: self.redraw,
            kept: kept_view(self.kept@),
            previous: frame_view(self.shadow.previous),
            seen: self.shadow.seen,
            shape: self.shadow.shape,
            depth: self.shadow.depth,
            output: self.shadow.output@,
        }
    }
}

impl Inline {
    /// Start at `anchor`, the zero-based screen row of the launch cursor.
    pub fn new(anchor: u16, depth: Depth) -> (r: Self)
        ensures
            r@ == (InlineView {
                top: anchor as int,
                screen: None,
                redraw: false,
                kept: Seq::empty(),
                previous: None,
                seen: 0,
                shape: None,
                depth,
                output: Seq::empty(),
            }),
            r@.inv(),
    {
        let r = Inline {
            top: anchor as i64,
            screen: None,
            redraw: false,
            kept: VecDeque::new(),
            shadow: Shadow::new(depth),
        };
        assert(r@.kept =~= Seq::<Seq<CellView>>::empty());
        r
    }

    /// Forget physical positions after a resize, a failed write, or another
    /// writer. The next draw repaints from the top of the screen: the
    /// committed rows that were still on screen, as many as fit above the
    /// frame, then the frame's tail, and erases every visible row beneath
    /// it. Until then, `commit`, `park`, and `frame_row` answer from where
    /// the last frame was drawn.
    pub fn invalidate(&mut self)
        ensures
            final(self)@ == (InlineView { redraw: true, seen: 0, shape: None, ..old(self)@ }),
    {
        self.redraw = true;
        self.shadow.forget_cursor();
    }

    /// The terminal's cursor may have been hidden or reshaped by another
    /// writer that left the rows alone, as a full-screen view on the
    /// alternate screen does. The next draw shows it again.
    pub fn forget_cursor(&mut self)
        ensures
            final(self)@ == (InlineView { seen: 0, shape: None, ..old(self)@ }),
    {
        self.shadow.forget_cursor();
    }

    /// Rows in the last frame, less any committed.
    fn len(&self) -> (n: i64)
        requires
            self@.inv(),
        ensures
            n == self@.len(),
    {
        match &self.shadow.previous {
            Some(p) => p.area().height as i64,
            None => 0,
        }
    }

    /// Forget kept rows that have scrolled past the top of the screen: they
    /// belong to the scrollback now.
    fn trim(&mut self)
        requires
            old(self).kept@.len() <= 300000,
            -300000 <= old(self).top <= 300000,
        ensures
            final(self)@ == (InlineView { kept: trimmed(old(self)@.kept, old(self)@.top), ..old(self)@ }),
    {
        let top: i64 = if self.top > 0 { self.top } else { 0 };
        let mut excess: i64 = self.kept.len() as i64 - top;
        let ghost k0 = kept_view(self.kept@);
        while excess > 0
            invariant
                self.top == old(self).top,
                self.screen == old(self).screen,
                self.redraw == old(self).redraw,
                self.shadow == old(self).shadow,
                top == max(old(self).top as int, 0),
                k0 == kept_view(old(self).kept@),
                excess == self.kept@.len() - top,
                kept_view(self.kept@) == k0.skip(k0.len() - self.kept@.len()),
                self.kept@.len() <= k0.len(),
                k0.len() - top > 0 ==> excess >= 0,
                k0.len() - top <= 0 ==> self.kept@.len() == k0.len(),
            decreases excess,
        {
            let ghost before = self.kept@;
            self.kept.pop_front();
            assert(kept_view(self.kept@) =~= kept_view(before).skip(1));
            assert(kept_view(self.kept@) =~= k0.skip(k0.len() - self.kept@.len()));
            excess = excess - 1;
        }
        proof {
            if k0.len() - top <= 0 {
                assert(k0.skip(0) =~= k0);
            }
        }
    }

    /// Release the first `rows` rows of the last frame. They stay where
    /// they are, and the next frame's first row sits directly beneath them.
    /// They are drawn again only by a repaint, while they are still on
    /// screen.
    pub fn commit(&mut self, rows: u16)
        requires
            old(self)@.inv(),
        ensures
            final(self)@ == commit_spec(old(self)@, rows),
            final(self)@.inv(),
    {
        let mut previous: Option<Buffer> = None;
        std::mem::swap(&mut previous, &mut self.shadow.previous);
        match previous {
            None => {},
            Some(mut p) => {
                let ghost p0 = p@;
                let ghost k0 = kept_view(self.kept@);
                let height = p.area().height;
                let n = if rows < height { rows } else { height };
                if n > 0 {
                    let head = p.split_rows(n);
                    let mut y: u16 = 0;
                    while y < n
                        invariant
                            y <= n,
                            head@.wf(),
                            head@.height == n,
                            head@.rows == p0.rows.take(n as int),
                            p0.wf(),
                            n <= p0.height,
                            kept_view(self.kept@) == k0 + p0.rows.take(y as int),
                            self.top == old(self).top,
                            self.screen == old(self).screen,
                            self.redraw == old(self).redraw,
                            self.shadow.seen == old(self).shadow.seen,
                            self.shadow.shape == old(self).shadow.shape,
                            self.shadow.depth == old(self).shadow.depth,
                            self.shadow.output == old(self).shadow.output,
                            self.shadow.previous is None,
                            k0 == kept_view(old(self).kept@),
                        decreases n - y,
                    {
                        let ghost before = self.kept@;
                        let row = copy_row(head.row(y));
                        assert(head@.rows[y as int] == p0.rows[y as int]);
                        assert(row_view(row) == p0.rows[y as int]);
                        self.kept.push_back(row);
                        assert(kept_view(self.kept@) =~= kept_view(before).push(row_view(row)));
                        assert(kept_view(self.kept@) =~= k0 + p0.rows.take(y + 1));
                        y = y + 1;
                    }
                }
                self.shadow.previous = Some(p);
                self.shadow.seen = 0;
                self.top = self.top + n as i64;
                proof {
                    if n == 0 {
                        assert(k0 + p0.rows.take(0) =~= k0);
                    }
                    let k1 = k0 + p0.rows.take(n as int);
                    assert forall|i: int| 0 <= i < k1.len() implies row_wf(#[trigger] k1[i])
                        && k1[i].len() <= u16::MAX by {
                        if i >= k0.len() {
                            assert(k1[i] == p0.rows[i - k0.len()]);
                        }
                    }
                }
                self.trim();
                proof {
                    let k1 = k0 + p0.rows.take(n as int);
                    let k2 = trimmed(k1, self.top as int);
                    assert forall|i: int| 0 <= i < k2.len() implies row_wf(#[trigger] k2[i])
                        && k2[i].len() <= u16::MAX by {
                        if k1.len() - max(self.top as int, 0) > 0 {
                            assert(k2[i] == k1[i + k1.len() - max(self.top as int, 0)]);
                        }
                    }
                    if n == 0 {
                        assert(self@.previous == Some(p0));
                    }
                }
            },
        }
    }

    /// Whether `render` would return no bytes without comparing a row:
    /// `frame` is the one last rendered, on a screen of the same size.
    pub fn current(&self, frame: &Buffer, height: u16) -> (r: bool)
        ensures
            r == current_spec(self@, frame@, height),
    {
        let same_screen = match self.screen {
            Some((w, h)) => w == frame.area().width && h == height,
            None => false,
        };
        self.shadow.drawn(frame) && !self.redraw && same_screen
    }

    /// The bytes that bring the screen from the last frame to `frame`, as
    /// one synchronized update; empty when nothing differs. `height` is the
    /// screen height in rows. Send them in one write, and call `invalidate`
    /// if it fails.
    ///
    /// Growth that fits is scrolled in with newlines and then diffed row by
    /// row. Growth whose first changed row would itself scroll away is
    /// printed in order from that row, so every row reaches history with its
    /// final content. A shrinking frame that fills the screen, or unknown
    /// positions, repaint the committed rows that fit above the frame.
    pub fn render(&mut self, frame: &Buffer, height: u16) -> (r: &[u8])
        requires
            old(self)@.inv(),
            frame@.wf(),
        ensures
            final(self)@ == render_spec(old(self)@, frame@, height),
            final(self)@.inv(),
            r@ == final(self)@.output,
    {
        if self.current(frame, height) {
            self.shadow.output.clear();
            return self.shadow.output.as_slice();
        }
        let rows: i64 = if height >= 1 { height as i64 } else { 1 };
        let len = frame.area().height as i64;
        let width = frame.area().width;
        let changed_screen = match self.screen {
            Some((w, h)) => w != width || h != height,
            None => false,
        };
        let redraw = self.redraw || changed_screen;
        if self.screen.is_none() && self.top > rows - 1 {
            self.top = rows - 1;
        }
        self.screen = Some((width, height));
        let mut previous: Option<Buffer> = None;
        std::mem::swap(&mut previous, &mut self.shadow.previous);
        let last: Option<&Buffer> = if redraw {
            None
        } else {
            match &previous {
                Some(p) => Some(p),
                None => None,
            }
        };
        let old_len: i64 = match last {
            Some(o) => o.area().height as i64,
            None => 0,
        };
        let reachable = if self.top < 0 { -self.top } else { 0 };
        let hi = if len >= old_len { len } else { old_len };
        let first = find_changed(frame, last, reachable, hi);
        let cursor_changed = self.shadow.cursor_changed(frame, last);
        proof {
            let ghost s = old(self)@;
            assert(rows == max(height as int, 1));
            assert(old_len == frame_len(opt_view(last)));
            assert(opt_view(last) == if redraw { None } else { s.previous });
            assert(first_view(first) == first_changed(frame@, opt_view(last), max(-self@.top, 0), max(len as int, old_len as int)));
        }
        if first.is_none() && !cursor_changed && !redraw {
            self.shadow.keep(frame, previous);
            return self.shadow.output.as_slice();
        }
        let ghost before = self@;
        self.draw_frame(frame, previous, redraw, first, rows);
        proof {
            let ghost s = old(self)@;
            assert(InlineView { previous: s.previous, ..before } == InlineView { top: before.top, screen: before.screen, ..s });
        }
        self.shadow.output.as_slice()
    }

    /// Draw a frame as wide as the screen and of any height, as one
    /// synchronized update appended to `out`. `height` is the screen height
    /// in rows. Returns whether anything was written; an unchanged frame
    /// writes nothing.
    pub fn draw(&mut self, out: &mut Vec<u8>, frame: &Buffer, height: u16) -> (wrote: bool)
        requires
            old(self)@.inv(),
            frame@.wf(),
        ensures
            final(self)@ == render_spec(old(self)@, frame@, height),
            final(self)@.inv(),
            final(out)@ == old(out)@ + final(self)@.output,
            wrote == (final(self)@.output.len() > 0),
    {
        let bytes = self.render(frame, height);
        let wrote = bytes.len() > 0;
        extend(out, bytes);
        wrote
    }

    /// Draw `frame` on a screen `rows` tall, the last frame, `previous`,
    /// taken out of the shadow: repaint when positions are unknown or a
    /// shrinking frame fills the screen, then write the changed rows, show
    /// the cursor, and forget kept rows that scrolled away.
    fn draw_frame(&mut self, frame: &Buffer, previous: Option<Buffer>, redraw: bool, first: Option<i64>, rows: i64)
        requires
            old(self).shadow.previous is None,
            old(self).screen is Some,
            previous matches Some(p) ==> p@.wf(),
            frame@.wf(),
            kept_wf(old(self)@.kept),
            old(self)@.kept.len() <= max(old(self)@.top, 0),
            -65536 <= old(self)@.top <= 131072,
            1 <= rows <= u16::MAX,
            first matches Some(f) ==> 0 <= f <= u16::MAX && f >= -old(self)@.top,
        ensures
            final(self)@ == draw_spec(
                InlineView { previous: frame_view(previous), ..old(self)@ },
                frame@,
                rows as int,
                redraw,
                first_view(first),
            ),
            final(self)@.inv(),
    {
        let ghost t = InlineView { previous: frame_view(previous), ..self@ };
        proof {
            reveal(draw_spec);
        }
        let len = frame.area().height as i64;
        let width = frame.area().width;
        let last: Option<&Buffer> = if redraw {
            None
        } else {
            match &previous {
                Some(p) => Some(p),
                None => None,
            }
        };
        let old_len: i64 = match last {
            Some(o) => o.area().height as i64,
            None => 0,
        };
        let mut pen = self.shadow.begin();
        let mut stale = self.top + old_len;
        let mut old1 = last;
        let repaint_kept = redraw || (len < old_len && (self.top + len <= 0 || len >= rows));
        let ghost start = self.shadow.output@;
        if repaint_kept {
            let kept_len = self.kept.len() as i64;
            self.top = if rows - len <= kept_len { rows - len } else { kept_len };
            let shown = if self.top > 0 { self.top } else { 0 };
            let skip = kept_len - shown;
            repaint(&mut pen, &mut self.shadow.output, &self.kept, skip as usize, width as usize);
            old1 = None;
            stale = rows;
        }
        let ghost after_head = self.shadow.output@;
        let top1 = self.top;
        let top = write_body(&mut pen, &mut self.shadow.output, frame, old1, rows, first, top1, stale);
        let ghost after_body = self.shadow.output@;
        self.top = top;
        let cursor = match frame.cursor() {
            Some((x, y)) => {
                let at = top + y as i64;
                if 0 <= at && at < rows {
                    Some((x, at as u16))
                } else {
                    None
                }
            },
            None => None,
        };
        self.shadow.finish(pen, frame, previous, cursor);
        self.redraw = false;
        self.trim();
        proof {
            let k = t.kept;
            let k2 = trimmed(k, top as int);
            assert forall|i: int| 0 <= i < k2.len() implies row_wf(#[trigger] k2[i])
                && k2[i].len() <= u16::MAX by {
                if k.len() - max(top as int, 0) > 0 {
                    assert(k2[i] == k[i + k.len() - max(top as int, 0)]);
                }
            }
            assert(self@.output =~= draw_spec(t, frame@, rows as int, redraw, first_view(first)).output);
        }
    }

    /// Where `park` puts the cursor, as numbers that are cheap to keep
    /// current.
    pub fn parking(&self) -> (p: Park)
        requires
            self@.inv(),
        ensures
            p == parking_spec(self@),
    {
        let h = match self.screen {
            None => {
                return Park::default();
            },
            Some((_, h)) => h,
        };
        let rows: i64 = if h >= 1 { h as i64 } else { 1 };
        let len = self.len();
        let (row, newline) = if len == 0 && self.top < rows {
            (clamp(self.top + 1, rows), false)
        } else if len == 0 {
            (rows, true)
        } else {
            (clamp(self.top + len, rows), true)
        };
        Park { row: Some(row as u16), newline }
    }

    /// Park the cursor on a fresh line beneath the last frame, where a
    /// shell prompt or a child program can continue: the parking bytes are
    /// appended to `out`.
    pub fn finish(&self, out: &mut Vec<u8>)
        requires
            self@.inv(),
        ensures
            final(out)@ == old(out)@ + park_bytes(parking_spec(self@)),
    {
        self.parking().write(out);
    }

    /// The bytes that put the cursor on a fresh line beneath the last
    /// frame. A session keeps them current so that even a crash leaves the
    /// frame intact above whatever is printed next.
    pub fn park(&self) -> (bytes: Vec<u8>)
        requires
            self@.inv(),
        ensures
            bytes@ == park_bytes(parking_spec(self@)),
    {
        let mut bytes = Vec::new();
        self.parking().write(&mut bytes);
        bytes
    }

    /// The frame row shown at a screen row, for mapping a mouse report onto
    /// the frame. `None` when the row is above or below the frame.
    pub fn frame_row(&self, screen_row: u16) -> (r: Option<u16>)
        requires
            self@.inv(),
        ensures
            r == (if 0 <= screen_row - self@.top < self@.len() {
                Some((screen_row - self@.top) as u16)
            } else {
                None
            }),
    {
        let row = screen_row as i64 - self.top;
        if 0 <= row && row < self.len() {
            Some(row as u16)
        } else {
            None
        }
    }
}

/// A row number kept between the first screen row and the last.
fn clamp(v: i64, rows: i64) -> (r: i64)
    requires
        1 <= rows <= u16::MAX,
    ensures
        r == max(1, min(v as int, rows as int)),
{
    if v < 1 {
        1
    } else if v > rows {
        rows
    } else {
        v
    }
}

} // verus!
