//! A clipped cell grid that keeps grapheme clusters and wide-cell ownership
//! intact.
use crate::geometry::Rect;
use crate::scan::{control_free, is_control_free};
use crate::unicode::{grapheme_clusters, graphemes, push_str, str_width, text_width};
use vstd::prelude::*;

verus! {

/// Terminal colors, independent of the terminal backend.
#[derive(Clone, Copy, Debug, PartialEq, Eq, Structural)]
pub enum Color {
    /// Inherit the terminal default.
    Default,
    /// An index in the terminal's 256-color palette.
    Indexed(u8),
    /// A true-color value.
    Rgb(u8, u8, u8),
}

impl Default for Color {
    fn default() -> (c: Self)
        ensures
            c == Color::Default,
    {
        Color::Default
    }
}

/// Complete cell styling; applications choose their own palette.
#[derive(Clone, Copy, Debug, PartialEq, Eq, Structural)]
pub struct Style {
    pub fg: Color,
    pub bg: Color,
    pub bold: bool,
    pub dim: bool,
    pub italic: bool,
    pub underline: bool,
    pub reverse: bool,
    pub strikethrough: bool,
}

/// The terminal's own colors and no attribute.
pub open spec fn plain_style() -> Style {
    Style {
        fg: Color::Default,
        bg: Color::Default,
        bold: false,
        dim: false,
        italic: false,
        underline: false,
        reverse: false,
        strikethrough: false,
    }
}

impl Default for Style {
    fn default() -> (s: Self)
        ensures
            s == plain_style(),
    {
        Style {
            fg: Color::Default,
            bg: Color::Default,
            bold: false,
            dim: false,
            italic: false,
            underline: false,
            reverse: false,
            strikethrough: false,
        }
    }
}

/// The cursor's look, as DECSCUSR sets it.
#[derive(Clone, Copy, Debug, PartialEq, Eq, Structural)]
pub enum CursorShape {
    /// Whatever the terminal is configured to show.
    Default,
    Block,
    Underline,
    Bar,
}

impl CursorShape {
    /// The DECSCUSR parameter: the steady form of each shape.
    pub open spec fn code_spec(self) -> u8 {
        match self {
            CursorShape::Default => 0,
            CursorShape::Block => 2,
            CursorShape::Underline => 4,
            CursorShape::Bar => 6,
        }
    }

    pub fn code(self) -> (c: u8)
        ensures
            c == self.code_spec(),
    {
        match self {
            CursorShape::Default => 0,
            CursorShape::Block => 2,
            CursorShape::Underline => 4,
            CursorShape::Bar => 6,
        }
    }
}

/// What a cell holds: its grapheme, the columns it takes, and its style.
/// An empty symbol of width zero continues the wide grapheme before it.
pub struct CellView {
    pub symbol: Seq<char>,
    pub width: nat,
    pub style: Style,
}

/// A blank cell: a space in the plain style.
pub open spec fn blank_cell() -> CellView {
    CellView { symbol: seq![' '], width: 1, style: plain_style() }
}

/// One terminal cell. Wide graphemes own following continuation cells.
#[derive(Debug, PartialEq, Eq)]
pub struct Cell {
    symbol: String,
    width: usize,
    style: Style,
}

impl View for Cell {
    type V = CellView;

    closed spec fn view(&self) -> CellView {
        CellView { symbol: self.symbol@, width: self.width as nat, style: self.style }
    }
}

impl Default for Cell {
    fn default() -> (c: Self)
        ensures
            c@ == blank_cell(),
    {
        Cell { symbol: space(), width: 1, style: Style::default() }
    }
}

/// A string holding one space.
fn space() -> (s: String)
    ensures
        s@ == seq![' '],
{
    let mut s = String::new();
    push_str(&mut s, " ");
    proof {
        reveal_strlit(" ");
    }
    s
}

impl Clone for Cell {
    fn clone(&self) -> (c: Self)
        ensures
            c@ == self@,
    {
        Cell { symbol: self.symbol.clone(), width: self.width, style: self.style }
    }
}

impl Cell {
    /// Grapheme text; an empty string denotes a wide-grapheme continuation.
    pub fn symbol(&self) -> (s: &str)
        ensures
            s@ == self@.symbol,
    {
        self.symbol.as_str()
    }

    pub fn style(&self) -> (s: Style)
        ensures
            s == self@.style,
    {
        self.style
    }

    /// The columns the cell's grapheme takes; zero for a continuation.
    pub fn width(&self) -> (w: usize)
        ensures
            w == self@.width,
    {
        self.width
    }

    /// Whether the cell is a blank in the plain style.
    pub fn is_blank(&self) -> (r: bool)
        ensures
            r == (self@ == blank_cell()),
    {
        self.width == 1 && self.style == Style::default() && self.symbol == space()
    }
}

/// Whether the grapheme at `k` spans the cell at `i`: it starts there or
/// before, and is wide enough to reach it.
pub open spec fn covers(r: Seq<CellView>, k: int, i: int) -> bool {
    0 <= k <= i < r.len() && r[k].width > i - k
}

/// A row keeps wide-cell ownership intact: every grapheme fits in the row
/// and is followed by its continuation cells, and every continuation cell
/// belongs to a grapheme before it that spans it.
pub open spec fn row_wf(r: Seq<CellView>) -> bool {
    &&& forall|i: int| 0 <= i < r.len() && r[i].width > 0 ==> i + #[trigger] r[i].width <= r.len()
    &&& forall|i: int, j: int|
        0 <= i < j < r.len() && j < i + r[i].width ==> (#[trigger] r[j]).width == 0
            && #[trigger] r[i].width > 0
    &&& forall|j: int|
        0 <= j < r.len() && (#[trigger] r[j]).width == 0 ==> exists|k: int| covers(r, k, j)
}

/// Where erasing at `x` starts: back over continuation cells to the grapheme
/// they continue.
pub open spec fn owner(r: Seq<CellView>, x: int) -> int
    decreases x,
{
    if 0 < x < r.len() && r[x].width == 0 {
        owner(r, x - 1)
    } else {
        x
    }
}

/// The end of the grapheme starting at `s`, within the row.
pub open spec fn span_end(r: Seq<CellView>, s: int) -> int {
    if s + r[s].width <= r.len() {
        s + r[s].width
    } else {
        r.len() as int
    }
}

/// Blank the whole grapheme covering `x`, including its continuation cells.
pub open spec fn erase_row(r: Seq<CellView>, x: int) -> Seq<CellView> {
    let s = owner(r, x);
    let e = span_end(r, s);
    Seq::new(r.len(), |j: int| if s <= j < e { blank_cell() } else { r[j] })
}

/// Erase at each of `lo..hi` in turn.
pub open spec fn erase_range(r: Seq<CellView>, lo: int, hi: int) -> Seq<CellView>
    decreases hi - lo,
{
    if lo >= hi {
        r
    } else {
        erase_range(erase_row(r, lo), lo + 1, hi)
    }
}

/// The first cell of a grapheme `w` columns wide.
pub open spec fn lead_cell(g: Seq<char>, w: nat, style: Style) -> CellView {
    CellView { symbol: g, width: w, style }
}

/// A continuation cell.
pub open spec fn cont_cell(style: Style) -> CellView {
    CellView { symbol: Seq::empty(), width: 0, style }
}

/// Put a grapheme `w` columns wide at `x`: erase whatever graphemes the
/// cells it takes belong to, then write it and its continuations.
pub open spec fn place(r: Seq<CellView>, x: int, g: Seq<char>, w: nat, style: Style) -> Seq<
    CellView,
> {
    let e = erase_range(r, x, x + w);
    Seq::new(
        r.len(),
        |j: int|
            if j == x {
                lead_cell(g, w, style)
            } else if x < j < x + w {
                cont_cell(style)
            } else {
                e[j]
            },
    )
}

/// Write graphemes into a row from `x`, with `room` columns left: control
/// characters and zero-width graphemes are skipped, and writing stops at
/// the first grapheme that does not fit. Returns the row and the columns
/// used.
pub open spec fn write_row(
    r: Seq<CellView>,
    x: int,
    room: int,
    gs: Seq<Seq<char>>,
    style: Style,
) -> (Seq<CellView>, nat)
    decreases gs.len(),
{
    if gs.len() == 0 {
        (r, 0)
    } else {
        let g = gs[0];
        let w = str_width(g);
        if !control_free(g) || w == 0 {
            write_row(r, x, room, gs.skip(1), style)
        } else if w > room {
            (r, 0)
        } else {
            let rest = write_row(place(r, x, g, w, style), x + w, room - w, gs.skip(1), style);
            (rest.0, rest.1 + w)
        }
    }
}

proof fn owner_finds_lead(r: Seq<CellView>, x: int)
    requires
        row_wf(r),
        0 <= x < r.len(),
    ensures
        0 <= owner(r, x) <= x,
        covers(r, owner(r, x), x),
    decreases x,
{
    if r[x].width == 0 {
        let k = choose|k: int| covers(r, k, x);
        assert(covers(r, k, x));
        assert(k < x);
        assert(owner(r, x) == owner(r, x - 1));
        if k == x - 1 {
            assert(r[k].width > 0);
            assert(owner(r, x - 1) == x - 1);
        } else {
            assert(r[x - 1].width == 0 && r[k].width > 0);
            owner_finds_lead(r, x - 1);
            let o = owner(r, x - 1);
            if o < k {
                assert(r[k].width == 0);
            } else if o > k {
                assert(r[o].width == 0);
            }
            assert(o == k);
        }
    } else {
        assert(owner(r, x) == x);
    }
}

proof fn erase_row_wf(r: Seq<CellView>, x: int)
    requires
        row_wf(r),
        0 <= x < r.len(),
    ensures
        row_wf(erase_row(r, x)),
        erase_row(r, x).len() == r.len(),
        erase_row(r, x)[x] == blank_cell(),
        forall|j: int|
            0 <= j < r.len() ==> (#[trigger] erase_row(r, x)[j] == r[j] || erase_row(r, x)[j]
                == blank_cell()),
{
    owner_finds_lead(r, x);
    let s = owner(r, x);
    let end = span_end(r, s);
    let e = erase_row(r, x);
    assert(end == s + r[s].width);
    assert forall|i: int, j: int|
        0 <= i < j < e.len() && j < i + e[i].width implies (#[trigger] e[j]).width == 0
        && #[trigger] e[i].width > 0 by {
        if s <= i < end {
        } else if i >= end {
            assert(r[i].width > 0 && r[j].width == 0);
        } else {
            if s < i + r[i].width {
                assert(r[s].width == 0);
            }
            assert(r[j].width == 0);
        }
    }
    assert forall|j: int| 0 <= j < e.len() && (#[trigger] e[j]).width == 0 implies exists|k: int|
        covers(e, k, j) by {
        assert(r[j].width == 0);
        let k = choose|k: int| covers(r, k, j);
        if s <= k < end {
            if k != s {
                assert(r[k].width == 0);
            }
        }
        assert(covers(e, k, j));
    }
}

proof fn erase_range_wf(r: Seq<CellView>, lo: int, hi: int)
    requires
        row_wf(r),
        0 <= lo,
        hi <= r.len(),
    ensures
        row_wf(erase_range(r, lo, hi)),
        erase_range(r, lo, hi).len() == r.len(),
        forall|j: int| lo <= j < hi ==> #[trigger] erase_range(r, lo, hi)[j] == blank_cell(),
        forall|j: int|
            0 <= j < r.len() ==> (#[trigger] erase_range(r, lo, hi)[j] == r[j] || erase_range(
                r,
                lo,
                hi,
            )[j] == blank_cell()),
    decreases hi - lo,
{
    if lo < hi {
        let e = erase_row(r, lo);
        erase_row_wf(r, lo);
        erase_range_wf(e, lo + 1, hi);
        let f = erase_range(e, lo + 1, hi);
        assert(f[lo] == e[lo] || f[lo] == blank_cell());
        assert forall|j: int| 0 <= j < r.len() implies (#[trigger] f[j] == r[j] || f[j]
            == blank_cell()) by {
            assert(f[j] == e[j] || f[j] == blank_cell());
            assert(e[j] == r[j] || e[j] == blank_cell());
        }
    }
}

/// Placing a grapheme keeps wide-cell ownership intact.
pub proof fn place_wf(r: Seq<CellView>, x: int, g: Seq<char>, w: nat, style: Style)
    requires
        row_wf(r),
        0 <= x,
        w >= 1,
        x + w <= r.len(),
    ensures
        row_wf(place(r, x, g, w, style)),
        place(r, x, g, w, style).len() == r.len(),
{
    erase_range_wf(r, x, x + w);
    let e = erase_range(r, x, x + w);
    let p = place(r, x, g, w, style);
    assert forall|i: int| 0 <= i < p.len() && p[i].width > 0 implies i + #[trigger] p[i].width
        <= p.len() by {
        if i != x && !(x < i < x + w) {
            assert(p[i] == e[i]);
        }
    }
    assert forall|i: int, j: int|
        0 <= i < j < p.len() && j < i + p[i].width implies (#[trigger] p[j]).width == 0
        && #[trigger] p[i].width > 0 by {
        if i == x {
        } else if x < i < x + w {
        } else if i < x {
            assert(p[i] == e[i]);
            if i + e[i].width > x {
                assert(e[x].width == 0);
            }
            assert(e[j].width == 0);
        } else {
            assert(p[i] == e[i]);
            assert(e[j].width == 0);
        }
    }
    assert forall|j: int| 0 <= j < p.len() && (#[trigger] p[j]).width == 0 implies exists|k: int|
        covers(p, k, j) by {
        if x < j < x + w {
            assert(covers(p, x, j));
        } else {
            assert(p[j] == e[j]);
            let k = choose|k: int| covers(e, k, j);
            if x <= k < x + w {
                assert(e[k] == blank_cell());
            } else if k < x && j > x {
                assert(e[x].width == 0);
            }
            assert(covers(p, k, j));
        }
    }
}

/// Whether placing a grapheme `w` columns wide at `x` erases only cells in
/// `lo..hi`: the graphemes it cuts start and end there.
pub open spec fn inside(r: Seq<CellView>, x: int, w: int, lo: int, hi: int) -> bool {
    lo <= owner(r, x) && span_end(r, owner(r, x + w - 1)) <= hi
}

/// Whether erasing `lo..hi` may reach cell `j`: it lies in the range, or
/// belongs to a grapheme that reaches into it.
pub open spec fn touched(r: Seq<CellView>, lo: int, hi: int, j: int) -> bool {
    ||| lo <= j < hi
    ||| exists|k: int, c: int|
        #![trigger covers(r, k, j), covers(r, k, c)]
        lo <= c < hi && covers(r, k, j) && covers(r, k, c)
}

/// Erasing changes only cells it touches.
proof fn erase_range_footprint(r: Seq<CellView>, lo: int, hi: int)
    requires
        row_wf(r),
        0 <= lo,
        hi <= r.len(),
    ensures
        forall|j: int|
            0 <= j < r.len() && #[trigger] erase_range(r, lo, hi)[j] != r[j] ==> touched(r, lo, hi, j),
    decreases hi - lo,
{
    if lo < hi {
        let e = erase_row(r, lo);
        erase_row_wf(r, lo);
        owner_finds_lead(r, lo);
        erase_range_footprint(e, lo + 1, hi);
        erase_range_wf(e, lo + 1, hi);
        let f = erase_range(e, lo + 1, hi);
        let s = owner(r, lo);
        let end = span_end(r, s);
        assert(end == s + r[s].width);
        assert forall|j: int| 0 <= j < r.len() && #[trigger] f[j] != r[j] implies touched(r, lo, hi, j) by {
            if e[j] != r[j] {
                assert(s <= j < end);
                assert(covers(r, s, j) && covers(r, s, lo));
            } else {
                assert(f[j] != e[j]);
                assert(touched(e, lo + 1, hi, j));
                if !(lo + 1 <= j < hi) {
                    let (k, c) = choose|k: int, c: int|
                        #![trigger covers(e, k, j), covers(e, k, c)]
                        lo + 1 <= c < hi && covers(e, k, j) && covers(e, k, c);
                    if s <= k < end {
                        assert(e[k] == blank_cell());
                        assert(j == k && c == k);
                    } else {
                        assert(e[k] == r[k]);
                        assert(covers(r, k, j) && covers(r, k, c));
                    }
                }
            }
        }
    }
}

/// Placing a grapheme whose cut graphemes lie in `lo..hi` changes no cell
/// outside it.
pub proof fn place_stays_within(r: Seq<CellView>, x: int, g: Seq<char>, w: nat, style: Style, lo: int, hi: int)
    requires
        row_wf(r),
        0 <= x,
        w >= 1,
        x + w <= r.len(),
        inside(r, x, w as int, lo, hi),
    ensures
        forall|j: int|
            0 <= j < r.len() && (j < lo || j >= hi) ==> #[trigger] place(r, x, g, w, style)[j] == r[j],
{
    erase_range_footprint(r, x, x + w);
    erase_range_wf(r, x, x + w);
    owner_finds_lead(r, x);
    owner_finds_lead(r, x + w - 1);
    let s0 = owner(r, x);
    let s1 = owner(r, x + w - 1);
    let e1 = span_end(r, s1);
    assert(e1 == s1 + r[s1].width);
    let e = erase_range(r, x, x + w);
    assert forall|j: int| 0 <= j < r.len() && (j < lo || j >= hi) implies #[trigger] place(
        r,
        x,
        g,
        w,
        style,
    )[j] == r[j] by {
        assert(!(x <= j < x + w));
        assert(place(r, x, g, w, style)[j] == e[j]);
        if e[j] != r[j] {
            assert(touched(r, x, x + w, j));
            let (k, c) = choose|k: int, c: int|
                #![trigger covers(r, k, j), covers(r, k, c)]
                x <= c < x + w && covers(r, k, j) && covers(r, k, c);
            if k < s0 {
                assert(r[s0].width == 0);
            }
            if k > s1 {
                assert(r[k].width == 0);
            }
            if k < s1 && k + r[k].width > s1 {
                assert(r[s1].width == 0);
            }
            if k < s1 && c >= s1 {
                assert(r[s1].width == 0);
            }
            assert(s0 <= k && k + r[k].width <= e1);
            assert(false);
        }
    }
}

/// Writing keeps wide-cell ownership intact and stays within the room.
pub proof fn write_row_wf(r: Seq<CellView>, x: int, room: int, gs: Seq<Seq<char>>, style: Style)
    requires
        row_wf(r),
        0 <= x,
        0 <= room,
        x + room <= r.len(),
    ensures
        row_wf(write_row(r, x, room, gs, style).0),
        write_row(r, x, room, gs, style).0.len() == r.len(),
        write_row(r, x, room, gs, style).1 <= room,
    decreases gs.len(),
{
    if gs.len() > 0 {
        let g = gs[0];
        let w = str_width(g);
        if !control_free(g) || w == 0 {
            write_row_wf(r, x, room, gs.skip(1), style);
        } else if w <= room {
            place_wf(r, x, g, w, style);
            write_row_wf(place(r, x, g, w, style), x + w, room - w, gs.skip(1), style);
        }
    }
}

/// What a buffer holds: its size, its rows of cells, and the cursor it
/// asks for.
#[verifier::ext_equal]
pub struct BufferView {
    pub width: nat,
    pub height: nat,
    pub rows: Seq<Seq<CellView>>,
    pub cursor: Option<(u16, u16)>,
    pub shape: CursorShape,
    pub version: u64,
}

/// The cells of a row.
pub open spec fn row_view(row: Vec<Cell>) -> Seq<CellView> {
    row@.map_values(|c: Cell| c@)
}

/// The cells of each row.
pub open spec fn rows_view(rows: Seq<Vec<Cell>>) -> Seq<Seq<CellView>> {
    rows.map_values(|row: Vec<Cell>| row_view(row))
}

/// A row of blank cells.
pub open spec fn blank_row(width: nat) -> Seq<CellView> {
    Seq::new(width, |i: int| blank_cell())
}

impl BufferView {
    /// Its size fits a terminal's, every row has the buffer's width and
    /// keeps wide-cell ownership intact, and there is a row for each line
    /// of its height.
    pub open spec fn wf(self) -> bool {
        &&& self.width <= u16::MAX
        &&& self.height <= u16::MAX
        &&& self.rows.len() == self.height
        &&& forall|y: int|
            0 <= y < self.rows.len() ==> (#[trigger] self.rows[y]).len() == self.width && row_wf(
                self.rows[y],
            )
    }

    /// The full drawable area.
    pub open spec fn area(self) -> Rect {
        Rect { x: 0, y: 0, width: self.width as u16, height: self.height as u16 }
    }

    /// The buffer after writing `text` in `area` with `style`, and the
    /// columns used: one line at the top of the area's overlap with the
    /// buffer, graphemes written whole from its left edge as `write_row`
    /// places them.
    pub open spec fn written(self, area: Rect, text: Seq<char>, style: Style) -> (BufferView, nat) {
        let a = area.overlap(self.area());
        if a.height == 0 || a.width == 0 {
            (self, 0)
        } else {
            let (row, used) = write_row(
                self.rows[a.y as int],
                a.x as int,
                a.width as int,
                grapheme_clusters(text),
                style,
            );
            (BufferView { rows: self.rows.update(a.y as int, row), ..self }, used)
        }
    }
}

/// An owned frame. All text writes are clipped and reject terminal
/// controls.
#[derive(Debug, PartialEq, Eq)]
pub struct Buffer {
    width: u16,
    height: u16,
    rows: Vec<Vec<Cell>>,
    cursor: Option<(u16, u16)>,
    shape: CursorShape,
    version: u64,
}

impl View for Buffer {
    type V = BufferView;

    closed spec fn view(&self) -> BufferView {
        BufferView {
            width: self.width as nat,
            height: self.height as nat,
            rows: rows_view(self.rows@),
            cursor: self.cursor,
            shape: self.shape,
            version: self.version,
        }
    }
}

/// A row of `width` blank cells.
fn new_row(width: u16) -> (row: Vec<Cell>)
    ensures
        row_view(row) == blank_row(width as nat),
{
    let mut row: Vec<Cell> = Vec::new();
    let mut i: u16 = 0;
    while i < width
        invariant
            i <= width,
            row@.len() == i,
            row_view(row) == blank_row(i as nat),
        decreases width - i,
    {
        let c = Cell::default();
        let ghost before = row@;
        row.push(c);
        assert(row@ == before.push(c));
        assert forall|j: int| 0 <= j < i + 1 implies #[trigger] row_view(row)[j] == blank_cell() by {
            if j < i {
                assert(row@[j] == before[j]);
                assert(before.map_values(|c: Cell| c@)[j] == blank_row(i as nat)[j]);
            }
        }
        assert(row_view(row) =~= blank_row((i + 1) as nat));
        i = i + 1;
    }
    row
}

proof fn blank_row_wf(width: nat)
    ensures
        row_wf(blank_row(width)),
{
    let r = blank_row(width);
    assert forall|j: int| 0 <= j < r.len() && (#[trigger] r[j]).width == 0 implies exists|k: int|
        covers(r, k, j) by {
        assert(r[j] == blank_cell());
    }
}

impl Buffer {
    /// Allocate a blank frame of the requested dimensions.
    pub fn new(width: u16, height: u16) -> (b: Self)
        ensures
            b@.wf(),
            b@.width == width,
            b@.height == height,
            b@.rows == Seq::new(height as nat, |y: int| blank_row(width as nat)),
            b@.cursor is None,
            b@.shape == CursorShape::Default,
            b@.version == 0,
    {
        let mut rows: Vec<Vec<Cell>> = Vec::new();
        let mut y: u16 = 0;
        while y < height
            invariant
                y <= height,
                rows@.len() == y,
                rows_view(rows@) == Seq::new(
                    y as nat,
                    |k: int| blank_row(width as nat),
                ),
            decreases height - y,
        {
            let row = new_row(width);
            let ghost before = rows@;
            rows.push(row);
            assert(rows@ == before.push(row));
            assert forall|j: int| 0 <= j < y + 1 implies #[trigger] rows_view(rows@)[j] == blank_row(
                width as nat,
            ) by {
                if j < y {
                    assert(rows@[j] == before[j]);
                    assert(rows_view(before)[j] == blank_row(width as nat));
                }
            }
            assert(rows_view(rows@) =~= Seq::new(
                (y + 1) as nat,
                |k: int| blank_row(width as nat),
            ));
            y = y + 1;
        }
        let b = Buffer { width, height, rows, cursor: None, shape: CursorShape::Default, version: 0 };
        proof {
            blank_row_wf(width as nat);
        }
        b
    }

    /// The cursor the frame asks for, as a zero-based `(column, row)`.
    pub fn cursor(&self) -> (c: Option<(u16, u16)>)
        ensures
            c == self@.cursor,
    {
        self.cursor
    }

    /// Ask for the cursor at a cell, or for none.
    pub fn set_cursor(&mut self, cursor: Option<(u16, u16)>)
        ensures
            final(self)@ == (BufferView { cursor, ..old(self)@ }),
    {
        self.cursor = cursor;
    }

    /// The cursor's look.
    pub fn cursor_shape(&self) -> (s: CursorShape)
        ensures
            s == self@.shape,
    {
        self.shape
    }

    pub fn set_shape(&mut self, shape: CursorShape)
        ensures
            final(self)@ == (BufferView { shape, ..old(self)@ }),
    {
        self.shape = shape;
    }

    /// A number that names this frame's contents; zero when unknown.
    pub fn version(&self) -> (v: u64)
        ensures
            v == self@.version,
    {
        self.version
    }

    /// Name this frame's contents, so a renderer can tell it drew them.
    pub fn set_version(&mut self, version: u64)
        ensures
            final(self)@ == (BufferView { version, ..old(self)@ }),
    {
        self.version = version;
    }

    /// The full drawable area.
    pub fn area(&self) -> (r: Rect)
        ensures
            r == self@.area(),
    {
        Rect::new(0, 0, self.width, self.height)
    }

    /// Inspect a cell without permitting broken wide-grapheme ownership.
    pub fn cell(&self, x: u16, y: u16) -> (c: Option<&Cell>)
        requires
            self@.wf(),
        ensures
            match c {
                Some(c) => x < self@.width && y < self@.height && c@ == self@.rows[y as int][x as int],
                None => x >= self@.width || y >= self@.height,
            },
    {
        if x >= self.width || y >= self.height {
            return None;
        }
        assert(self.rows@[y as int]@.len() == self@.rows[y as int].len());
        Some(&self.rows[y as usize][x as usize])
    }

    /// The cells of row `y`.
    pub fn row(&self, y: u16) -> (r: &[Cell])
        requires
            self@.wf(),
            y < self@.height,
        ensures
            r@.map_values(|c: Cell| c@) == self@.rows[y as int],
    {
        self.rows[y as usize].as_slice()
    }

    /// Restore every cell to its blank default and hide the cursor.
    pub fn clear(&mut self)
        requires
            old(self)@.wf(),
        ensures
            final(self)@ == (BufferView {
                rows: Seq::new(old(self)@.height, |y: int| blank_row(old(self)@.width)),
                cursor: None,
                ..old(self)@
            }),
            final(self)@.wf(),
    {
        let mut y: usize = 0;
        let h = self.height as usize;
        let ghost w = self.width as nat;
        while y < h
            invariant
                self.width == old(self).width,
                self.height == old(self).height,
                self.cursor == old(self).cursor,
                self.shape == old(self).shape,
                self.version == old(self).version,
                h == self.height,
                w == self.width as nat,
                self.rows@.len() == h,
                y <= h,
                forall|k: int|
                    0 <= k < y ==> row_view(#[trigger] self.rows@[k]) == blank_row(w),
                old(self)@.rows.len() == h,
                forall|k: int|
                    y <= k < h ==> row_view(#[trigger] self.rows@[k]) == old(self)@.rows[k],
            decreases h - y,
        {
            let ghost before = self.rows@;
            let fresh = new_row(self.width);
            self.rows[y] = fresh;
            assert(self.rows@ == before.update(y as int, fresh));
            assert forall|k: int| 0 <= k < y + 1 implies row_view(#[trigger] self.rows@[k])
                == blank_row(w) by {
                if k < y {
                    assert(self.rows@[k] == before[k]);
                }
            }
            assert forall|k: int| y + 1 <= k < h implies row_view(#[trigger] self.rows@[k])
                == old(self)@.rows[k] by {
                assert(self.rows@[k] == before[k]);
            }
            y = y + 1;
        }
        self.cursor = None;
        proof {
            blank_row_wf(w);
            assert(self@.rows =~= Seq::new(old(self)@.height, |y: int| blank_row(w)));
        }
    }
}

impl Buffer {
    /// Put `cell` at column `x` of row `y`.
    fn set_cell(&mut self, y: usize, x: usize, cell: Cell)
        requires
            y < old(self)@.rows.len(),
            x < old(self)@.rows[y as int].len(),
            old(self).rows@.len() == old(self)@.rows.len(),
        ensures
            final(self)@ == (BufferView {
                rows: old(self)@.rows.update(
                    y as int,
                    old(self)@.rows[y as int].update(x as int, cell@),
                ),
                ..old(self)@
            }),
            final(self).rows@.len() == old(self).rows@.len(),
    {
        let ghost before = self.rows@;
        let ghost c = cell@;
        assert(self.rows@[y as int]@.len() == old(self)@.rows[y as int].len());
        self.rows[y][x] = cell;
        proof {
            assert(row_view(self.rows@[y as int]) =~= row_view(before[y as int]).update(x as int, c));
            assert forall|k: int| 0 <= k < before.len() && k != y implies self.rows@[k] == before[k] by {}
            assert(rows_view(self.rows@) =~= rows_view(before).update(
                y as int,
                row_view(before[y as int]).update(x as int, c),
            ));
        }
    }

    /// Erase the whole grapheme covering column `x` of row `y`, including
    /// its continuation cells.
    fn erase(&mut self, y: usize, x: usize)
        requires
            old(self)@.wf(),
            y < old(self)@.height,
            x < old(self)@.width,
        ensures
            final(self)@ == (BufferView {
                rows: old(self)@.rows.update(y as int, erase_row(old(self)@.rows[y as int], x as int)),
                ..old(self)@
            }),
    {
        let ghost r = self@.rows[y as int];
        let len = self.width as usize;
        assert(self.rows@.len() == self@.rows.len());
        assert(self.rows@[y as int]@.len() == len);
        let mut start = x;
        while start > 0 && self.rows[y][start].width == 0
            invariant
                start <= x < len,
                self@ == old(self)@,
                r == self@.rows[y as int],
                r.len() == len,
                y < self.rows@.len(),
                self.rows@[y as int]@.len() == len,
                owner(r, x as int) == owner(r, start as int),
            decreases start,
        {
            assert(self.rows@[y as int]@[start as int]@ == r[start as int]);
            start = start - 1;
        }
        assert(self.rows@[y as int]@[start as int]@ == r[start as int]);
        assert(owner(r, start as int) == start);
        let wd = self.rows[y][start].width;
        let end = if wd >= len - start {
            len
        } else {
            start + wd
        };
        assert(end == span_end(r, start as int));
        let mut j = start;
        while j < end
            invariant
                start <= j <= end <= len,
                len == self@.width,
                self.rows@.len() == self@.rows.len(),
                self@.width == old(self)@.width,
                self@.height == old(self)@.height,
                self@.cursor == old(self)@.cursor,
                self@.shape == old(self)@.shape,
                self@.version == old(self)@.version,
                self@.rows.len() == old(self)@.rows.len(),
                y < self@.rows.len(),
                forall|k: int|
                    0 <= k < self@.rows.len() && k != y ==> #[trigger] self@.rows[k] == old(
                        self,
                    )@.rows[k],
                self@.rows[y as int] == Seq::new(
                    len as nat,
                    |k: int|
                        if start <= k < j {
                            blank_cell()
                        } else {
                            r[k]
                        },
                ),
            decreases end - j,
        {
            let ghost before = self@;
            self.set_cell(y, j, Cell::default());
            assert(self@.rows[y as int] =~= Seq::new(
                len as nat,
                |k: int|
                    if start <= k < j + 1 {
                        blank_cell()
                    } else {
                        r[k]
                    },
            ));
            j = j + 1;
        }
        assert(self@.rows[y as int] =~= erase_row(r, x as int));
        assert(self@.rows =~= old(self)@.rows.update(y as int, erase_row(r, x as int)));
    }
}

/// The same buffer with row `y` replaced.
pub open spec fn with_row(b: BufferView, y: int, row: Seq<CellView>) -> BufferView {
    BufferView { rows: b.rows.update(y, row), ..b }
}

proof fn with_row_wf(b: BufferView, y: int, row: Seq<CellView>)
    requires
        b.wf(),
        0 <= y < b.height,
        row.len() == b.width,
        row_wf(row),
    ensures
        with_row(b, y, row).wf(),
{
    let c = with_row(b, y, row);
    assert forall|k: int| 0 <= k < c.rows.len() implies (#[trigger] c.rows[k]).len() == c.width
        && row_wf(c.rows[k]) by {
        if k != y {
            assert(c.rows[k] == b.rows[k]);
        }
    }
}

impl Buffer {
    /// Where the grapheme holding cell `x` of row `y` starts.
    fn owner_at(&self, y: usize, x: usize) -> (o: usize)
        requires
            y < self@.height,
            x < self@.width,
            self@.wf(),
        ensures
            o == owner(self@.rows[y as int], x as int),
            o <= x,
    {
        let row = &self.rows[y];
        let ghost r = self@.rows[y as int];
        let mut o = x;
        while o > 0 && row[o].width == 0
            invariant
                r == row_view(*row),
                r.len() == self@.width,
                o <= x < r.len(),
                owner(r, x as int) == owner(r, o as int),
            decreases o,
        {
            assert(r[o as int].width == row@[o as int]@.width);
            o = o - 1;
        }
        proof {
            if o > 0 {
                assert(r[o as int].width == row@[o as int]@.width);
            }
        }
        o
    }

    /// Whether placing a grapheme `w` columns wide at `x` of row `y` erases
    /// only cells in `lo..hi`.
    pub(crate) fn stays_within(&self, y: usize, x: usize, w: usize, lo: usize, hi: usize) -> (b: bool)
        requires
            self@.wf(),
            y < self@.height,
            w >= 1,
            x + w <= self@.width,
        ensures
            b == inside(self@.rows[y as int], x as int, w as int, lo as int, hi as int),
    {
        let first = self.owner_at(y, x);
        let last = self.owner_at(y, x + w - 1);
        let ghost r = self@.rows[y as int];
        let lw = self.rows[y][last].width;
        assert(lw == r[last as int].width);
        let len = self.rows[y].len();
        let end = if lw <= len - last { last + lw } else { len };
        lo <= first && end <= hi
    }

    /// Write grapheme `g`, `w` columns wide, at column `x` of row `y`,
    /// erasing whatever graphemes its cells belonged to.
    pub(crate) fn place_grapheme(&mut self, y: usize, x: usize, g: &String, w: usize, style: Style)
        requires
            old(self)@.wf(),
            y < old(self)@.height,
            w >= 1,
            x + w <= old(self)@.width,
        ensures
            final(self)@ == with_row(
                old(self)@,
                y as int,
                place(old(self)@.rows[y as int], x as int, g@, w as nat, style),
            ),
            final(self)@.wf(),
    {
        let ghost r = self@.rows[y as int];
        let end = x + w;
        let mut i = x;
        proof {
            erase_range_wf(r, x as int, end as int);
            assert(self@ =~= with_row(old(self)@, y as int, self@.rows[y as int]));
        }
        while i < end
            invariant
                old(self)@.wf(),
                x <= i <= end <= self@.width,
                y < self@.height,
                self@.wf(),
                self@ == with_row(old(self)@, y as int, self@.rows[y as int]),
                erase_range(self@.rows[y as int], i as int, end as int) == erase_range(
                    r,
                    x as int,
                    end as int,
                ),
            decreases end - i,
        {
            let ghost cur = self@.rows[y as int];
            self.erase(y, i);
            proof {
                erase_row_wf(cur, i as int);
                with_row_wf(old(self)@, y as int, erase_row(cur, i as int));
                assert(self@.rows =~= old(self)@.rows.update(y as int, erase_row(cur, i as int)));
                assert(self@ =~= with_row(old(self)@, y as int, erase_row(cur, i as int)));
            }
            i = i + 1;
        }
        let ghost e = erase_range(r, x as int, end as int);
        assert(self@.rows[y as int] == e);
        assert(self.rows@.len() == self@.rows.len());
        self.set_cell(y, x, Cell { symbol: g.clone(), width: w, style });
        assert(self@ =~= with_row(old(self)@, y as int, self@.rows[y as int]));
        let mut j = x + 1;
        while j < end
            invariant
                old(self)@.wf(),
                x < j <= end <= self@.width,
                y < self@.height,
                self.rows@.len() == self@.rows.len(),
                self@.rows.len() == self@.height,
                self@.rows[y as int].len() == self@.width,
                self@ == with_row(old(self)@, y as int, self@.rows[y as int]),
                self@.rows[y as int] == Seq::new(
                    e.len(),
                    |k: int|
                        if k == x {
                            lead_cell(g@, w as nat, style)
                        } else if x < k < j {
                            cont_cell(style)
                        } else {
                            e[k]
                        },
                ),
            decreases end - j,
        {
            let ghost cur = self@.rows[y as int];
            self.set_cell(y, j, Cell { symbol: String::new(), width: 0, style });
            assert(self@.rows[y as int] =~= Seq::new(
                e.len(),
                |k: int|
                    if k == x {
                        lead_cell(g@, w as nat, style)
                    } else if x < k < j + 1 {
                        cont_cell(style)
                    } else {
                        e[k]
                    },
            ));
            assert(self@ =~= with_row(old(self)@, y as int, self@.rows[y as int]));
            j = j + 1;
        }
        proof {
            assert(self@.rows[y as int] =~= place(r, x as int, g@, w as nat, style));
            place_wf(r, x as int, g@, w as nat, style);
            with_row_wf(old(self)@, y as int, self@.rows[y as int]);
        }
    }

    /// Write one line within `area`, returning columns used. Control
    /// characters and standalone zero-width graphemes are skipped. A
    /// grapheme never splits. Overwriting either half of a wide grapheme
    /// clears the whole old grapheme.
    pub fn write(&mut self, area: Rect, text: &str, style: Style) -> (used: u16)
        requires
            old(self)@.wf(),
        ensures
            final(self)@ == old(self)@.written(area, text@, style).0,
            used == old(self)@.written(area, text@, style).1,
            final(self)@.wf(),
    {
        let a = area.intersection(self.area());
        if a.height == 0 || a.width == 0 {
            return 0;
        }
        let y = a.y as usize;
        let gs = graphemes(text);
        let ghost gv = gs@.map_values(|g: String| g@);
        let ghost r0 = self@.rows[y as int];
        let ghost target = write_row(r0, a.x as int, a.width as int, gv, style);
        let room = a.width as usize;
        let x0 = a.x as usize;
        let mut used: usize = 0;
        let mut k: usize = 0;
        let mut stop = false;
        assert(gv.skip(0) =~= gv);
        assert(self@ =~= with_row(old(self)@, y as int, self@.rows[y as int]));
        while k < gs.len()
            invariant
                old(self)@.wf(),
                used <= room,
                x0 + room <= self@.width,
                y < self@.height,
                k <= gs@.len(),
                gv == gs@.map_values(|g: String| g@),
                self@.wf(),
                self@ == with_row(old(self)@, y as int, self@.rows[y as int]),
                !stop ==> write_row(
                    self@.rows[y as int],
                    x0 + used,
                    room - used,
                    gv.skip(k as int),
                    style,
                ).0 == target.0 && write_row(
                    self@.rows[y as int],
                    x0 + used,
                    room - used,
                    gv.skip(k as int),
                    style,
                ).1 + used == target.1,
                stop ==> self@.rows[y as int] == target.0 && used == target.1 && k == gs@.len(),
            decreases gs@.len() - k,
        {
            let g = &gs[k];
            let ghost rest = gv.skip(k as int);
            assert(rest[0] == g@);
            assert(rest.skip(1) =~= gv.skip(k + 1));
            if !is_control_free(g.as_str()) {
                k = k + 1;
            } else {
                let w = text_width(g.as_str());
                if w == 0 {
                    k = k + 1;
                } else if w > room - used {
                    stop = true;
                    k = gs.len();
                } else {
                    self.place_grapheme(y, x0 + used, g, w, style);
                    used = used + w;
                    k = k + 1;
                }
            }
        }
        proof {
            if !stop {
                assert(gv.skip(k as int).len() == 0);
            }
        }
        used as u16
    }
}

/// A row's text: its symbols in order, a wide grapheme once.
pub open spec fn row_text(r: Seq<CellView>) -> Seq<char> {
    r.map_values(|c: CellView| c.symbol).flatten()
}

/// Whether two cells hold the same grapheme, width, and style.
pub fn same_cell(a: &Cell, b: &Cell) -> (r: bool)
    ensures
        r == (a@ == b@),
{
    a.width == b.width && a.style == b.style && a.symbol == b.symbol
}

/// Copy a row of cells.
pub(crate) fn copy_row(row: &[Cell]) -> (r: Vec<Cell>)
    ensures
        row_view(r) == row@.map_values(|c: Cell| c@),
{
    let mut r: Vec<Cell> = Vec::new();
    let mut i: usize = 0;
    while i < row.len()
        invariant
            i <= row@.len(),
            r@.len() == i,
            forall|k: int| 0 <= k < i ==> (#[trigger] r@[k])@ == row@[k]@,
        decreases row@.len() - i,
    {
        r.push(row[i].clone());
        i = i + 1;
    }
    assert(row_view(r) =~= row@.map_values(|c: Cell| c@));
    r
}

impl Clone for Buffer {
    fn clone(&self) -> (b: Self)
        ensures
            b@ == self@,
    {
        let mut rows: Vec<Vec<Cell>> = Vec::new();
        let mut y: usize = 0;
        while y < self.rows.len()
            invariant
                y <= self.rows@.len(),
                rows@.len() == y,
                forall|k: int| 0 <= k < y ==> row_view(#[trigger] rows@[k]) == row_view(self.rows@[k]),
            decreases self.rows@.len() - y,
        {
            rows.push(copy_row(self.rows[y].as_slice()));
            y = y + 1;
        }
        let b = Buffer {
            width: self.width,
            height: self.height,
            rows,
            cursor: self.cursor,
            shape: self.shape,
            version: self.version,
        };
        assert(b@.rows =~= self@.rows);
        b
    }
}

impl Buffer {
    /// Get visible rows as plain text, useful for snapshots and diagnostics.
    pub fn lines(&self) -> (lines: Vec<String>)
        requires
            self@.wf(),
        ensures
            lines@.len() == self@.height,
            forall|y: int| 0 <= y < lines@.len() ==> (#[trigger] lines@[y])@ == row_text(self@.rows[y]),
    {
        let mut lines: Vec<String> = Vec::new();
        let mut y: usize = 0;
        let h = self.rows.len();
        while y < h
            invariant
                h == self.rows@.len() == self@.height,
                y <= h,
                lines@.len() == y,
                forall|k: int| 0 <= k < y ==> (#[trigger] lines@[k])@ == row_text(self@.rows[k]),
            decreases h - y,
        {
            let row = &self.rows[y];
            let ghost r = self@.rows[y as int];
            let mut text = String::new();
            let mut x: usize = 0;
            while x < row.len()
                invariant
                    x <= row@.len(),
                    r == row_view(*row),
                    text@ == r.take(x as int).map_values(|c: CellView| c.symbol).flatten(),
                decreases row@.len() - x,
            {
                push_str(&mut text, row[x].symbol.as_str());
                proof {
                    let s = r.take(x as int).map_values(|c: CellView| c.symbol);
                    assert(r.take(x + 1).map_values(|c: CellView| c.symbol) =~= s.push(r[x as int].symbol));
                    s.lemma_flatten_push(r[x as int].symbol);
                }
                x = x + 1;
            }
            assert(r.take(row@.len() as int) =~= r);
            lines.push(text);
            y = y + 1;
        }
        lines
    }

    /// Whether two frames are the same: size, cells, cursor, shape and
    /// version alike.
    pub fn same(&self, other: &Buffer) -> (r: bool)
        requires
            self@.wf(),
            other@.wf(),
        ensures
            r == (self@ == other@),
    {
        if self.width != other.width || self.height != other.height || self.cursor != other.cursor
            || self.shape != other.shape || self.version != other.version {
            return false;
        }
        let mut y: u16 = 0;
        while y < self.height
            invariant
                self@.wf(),
                other@.wf(),
                self@.height == other@.height == self.height,
                y <= self.height,
                forall|k: int| 0 <= k < y ==> self@.rows[k] == other@.rows[k],
            decreases self.height - y,
        {
            if !self.same_row(other, y) {
                return false;
            }
            y = y + 1;
        }
        assert(self@.rows =~= other@.rows);
        true
    }

    /// Whether row `y` holds the same cells as row `y` of `other`.
    pub fn same_row(&self, other: &Buffer, y: u16) -> (r: bool)
        requires
            self@.wf(),
            other@.wf(),
            y < self@.height,
            y < other@.height,
        ensures
            r == (self@.rows[y as int] == other@.rows[y as int]),
    {
        let a = &self.rows[y as usize];
        let b = &other.rows[y as usize];
        let ghost ra = self@.rows[y as int];
        let ghost rb = other@.rows[y as int];
        if a.len() != b.len() {
            assert(ra.len() != rb.len());
            return false;
        }
        let mut x: usize = 0;
        while x < a.len()
            invariant
                x <= a@.len() == b@.len(),
                ra == row_view(*a),
                rb == row_view(*b),
                ra == self@.rows[y as int],
                rb == other@.rows[y as int],
                forall|k: int| 0 <= k < x ==> ra[k] == rb[k],
            decreases a@.len() - x,
        {
            if !same_cell(&a[x], &b[x]) {
                assert(ra[x as int] != rb[x as int]);
                return false;
            }
            x = x + 1;
        }
        assert(ra =~= rb);
        true
    }

    /// Split off the first `rows` rows as a buffer of their own; this
    /// buffer keeps the rest, and its cursor moves up with them, or goes
    /// when it was on a row split off.
    pub fn split_rows(&mut self, rows: u16) -> (head: Buffer)
        requires
            old(self)@.wf(),
            rows <= old(self)@.height,
        ensures
            head@.wf(),
            head@.width == old(self)@.width,
            head@.rows == old(self)@.rows.take(rows as int),
            head@.height == rows,
            head@.cursor is None,
            final(self)@.wf(),
            final(self)@.width == old(self)@.width,
            final(self)@.height == old(self)@.height - rows,
            final(self)@.rows == old(self)@.rows.skip(rows as int),
            final(self)@.cursor == match old(self)@.cursor {
                Some((x, y)) => if y >= rows {
                    Some((x, (y - rows) as u16))
                } else {
                    None
                },
                None => None,
            },
            final(self)@.shape == old(self)@.shape,
            final(self)@.version == old(self)@.version,
    {
        let mut head_rows = self.rows.split_off(rows as usize);
        std::mem::swap(&mut head_rows, &mut self.rows);
        let head = Buffer {
            width: self.width,
            height: rows,
            rows: head_rows,
            cursor: None,
            shape: CursorShape::Default,
            version: 0,
        };
        self.height = self.height - rows;
        self.cursor = match self.cursor {
            Some((x, y)) => if y >= rows {
                Some((x, y - rows))
            } else {
                None
            },
            None => None,
        };
        assert(head@.rows =~= old(self)@.rows.take(rows as int));
        assert(self@.rows =~= old(self)@.rows.skip(rows as int));
        head
    }
}

impl Buffer {
    /// Drop the first `rows` rows; the cursor moves up with the rest, or
    /// goes when it was on a row dropped.
    pub fn drop_rows(&mut self, rows: u16)
        requires
            old(self)@.wf(),
            rows <= old(self)@.height,
        ensures
            final(self)@.wf(),
            final(self)@.width == old(self)@.width,
            final(self)@.height == old(self)@.height - rows,
            final(self)@.rows == old(self)@.rows.skip(rows as int),
            final(self)@.shape == old(self)@.shape,
            final(self)@.version == old(self)@.version,
    {
        let _ = self.split_rows(rows);
    }
}

} // verus!
