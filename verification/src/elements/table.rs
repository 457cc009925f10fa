//! A table with explicit column widths and a fixed header.
use crate::buffer::{plain_style, BufferView, Style};
use crate::canvas::{canvas_text, sat_add as sat_add_i32, sat_i32, Canvas};
use crate::element::Element;
use crate::event::{Event, Response};
use crate::geometry::Rect;
use super::{fit, fit_spec, least, nav_target, navigate, sat_sub, window, window_spec};
use vstd::prelude::*;

verus! {

/// Column widths are terminal cells. Values are clipped at grapheme
/// boundaries; headers remain visible while keyboard navigation scrolls
/// the body.
pub struct Table {
    pub columns: Vec<(String, u16)>,
    pub rows: Vec<Vec<String>>,
    pub selected: usize,
    pub style: Style,
    pub header: Style,
    pub highlight: Style,
    page: usize,
    /// The first body row shown. It moves only when the selection leaves
    /// the view.
    offset: usize,
}

/// What a table holds: its columns' names and widths, its rows' values,
/// the selected row, its styles, the body rows a page shows, and the first
/// body row shown.
pub struct TableView {
    pub columns: Seq<(Seq<char>, u16)>,
    pub rows: Seq<Seq<Seq<char>>>,
    pub selected: usize,
    pub style: Style,
    pub header: Style,
    pub highlight: Style,
    pub page: usize,
    pub offset: usize,
}

/// The texts of a row's values.
pub open spec fn values_view(row: Seq<String>) -> Seq<Seq<char>> {
    row.map_values(|s: String| s@)
}

impl View for Table {
    type V = TableView;

    closed spec fn view(&self) -> TableView {
        TableView {
            columns: self.columns@.map_values(|c: (String, u16)| (c.0@, c.1)),
            rows: self.rows@.map_values(|r: Vec<String>| values_view(r@)),
            selected: self.selected,
            style: self.style,
            header: self.header,
            highlight: self.highlight,
            page: self.page,
            offset: self.offset,
        }
    }
}

impl Default for Table {
    fn default() -> (t: Self)
        ensures
            t@.columns.len() == 0,
            t@.rows.len() == 0,
            t@.selected == 0,
            t@.style == plain_style(),
            t@.header == plain_style(),
            t@.highlight == plain_style(),
            t@.page == 0,
            t@.offset == 0,
    {
        let t = Table {
            columns: Vec::new(),
            rows: Vec::new(),
            selected: 0,
            style: Style::default(),
            header: Style::default(),
            highlight: Style::default(),
            page: 0,
            offset: 0,
        };
        assert(t@.columns.len() == 0);
        t
    }
}

impl Table {
    pub fn new(columns: Vec<(String, u16)>, rows: Vec<Vec<String>>) -> (t: Self)
        ensures
            t@.columns == columns@.map_values(|c: (String, u16)| (c.0@, c.1)),
            t@.rows == rows@.map_values(|r: Vec<String>| values_view(r@)),
            t@.selected == 0,
            t@.style == plain_style(),
            t@.header == (Style { bold: true, ..plain_style() }),
            t@.highlight == (Style { reverse: true, ..plain_style() }),
            t@.page == 0,
            t@.offset == 0,
    {
        Table {
            columns,
            rows,
            selected: 0,
            style: Style::default(),
            header: Style { bold: true, ..Style::default() },
            highlight: Style { reverse: true, ..Style::default() },
            page: 0,
            offset: 0,
        }
    }
}

/// Values from the `k`th on, each cut to its column's width at column `x`
/// of local row `y`, a cell apart.
pub open spec fn table_row(
    b: BufferView,
    origin: (i32, i32),
    clip: Rect,
    columns: Seq<(Seq<char>, u16)>,
    values: Seq<Seq<char>>,
    y: i32,
    x: i32,
    style: Style,
    k: int,
) -> BufferView
    decreases columns.len() - k,
{
    if k < 0 || k >= columns.len() || k >= values.len() {
        b
    } else {
        table_row(
            canvas_text(b, origin, clip, x, y, fit_spec(values[k], columns[k].1 as int), style),
            origin,
            clip,
            columns,
            values,
            y,
            sat_i32(sat_i32(x + columns[k].1) + 1),
            style,
            k + 1,
        )
    }
}

/// Body rows from `index` to `end`, the row at `offset` beneath the
/// header, the selected one highlighted.
pub open spec fn table_body(
    b: BufferView,
    origin: (i32, i32),
    clip: Rect,
    t: TableView,
    selected: int,
    index: int,
    end: int,
) -> BufferView
    decreases end - index,
{
    if index < 0 || index >= end || index >= t.rows.len() {
        b
    } else {
        table_body(
            table_row(b, origin, clip, t.columns, t.rows[index], sat_i32(index - t.offset + 1), 0, if index
                == selected {
                t.highlight
            } else {
                t.style
            }, 0),
            origin,
            clip,
            t,
            selected,
            index + 1,
            end,
        )
    }
}

/// A count of cells, kept to the largest `u16`.
pub open spec fn sat16(v: int) -> int {
    if v > u16::MAX {
        u16::MAX as int
    } else {
        v
    }
}

/// The columns' widths from the `k`th on, each with a cell after it,
/// added to `n`, saturating.
pub open spec fn widths_from(columns: Seq<(Seq<char>, u16)>, n: int, k: int) -> int
    decreases columns.len() - k,
{
    if k < 0 || k >= columns.len() {
        n
    } else {
        widths_from(columns, sat16(sat16(n + columns[k].1) + 1), k + 1)
    }
}

impl Table {
    /// Write values into the columns of a local row.
    fn row(&self, canvas: &mut Canvas<'_>, y: i32, values: &Vec<String>, style: Style)
        requires
            old(canvas).frame().wf(),
        ensures
            final(canvas).frame() == table_row(
                old(canvas).frame(),
                old(canvas).origin_spec(),
                old(canvas).clip_spec(),
                self@.columns,
                values_view(values@),
                y,
                0,
                style,
                0,
            ),
            final(canvas).frame().wf(),
            final(canvas).origin_spec() == old(canvas).origin_spec(),
            final(canvas).clip_spec() == old(canvas).clip_spec(),
            final(canvas).size_spec() == old(canvas).size_spec(),
            final(canvas).focused_spec() == old(canvas).focused_spec(),
    {
        let ghost origin = canvas.origin_spec();
        let ghost clip = canvas.clip_spec();
        let ghost vs = values_view(values@);
        let ghost cols = self@.columns;
        let ghost total = table_row(canvas.frame(), origin, clip, cols, vs, y, 0, style, 0);
        let mut x: i32 = 0;
        let mut k: usize = 0;
        while k < self.columns.len() && k < values.len()
            invariant
                k <= self.columns@.len(),
                vs == values_view(values@),
                cols == self@.columns,
                origin == canvas.origin_spec(),
                clip == canvas.clip_spec(),
                canvas.origin_spec() == old(canvas).origin_spec(),
                canvas.clip_spec() == old(canvas).clip_spec(),
                canvas.size_spec() == old(canvas).size_spec(),
                canvas.focused_spec() == old(canvas).focused_spec(),
                canvas.frame().wf(),
                table_row(canvas.frame(), origin, clip, cols, vs, y, x, style, k as int) == total,
            decreases self.columns@.len() - k,
        {
            let width = self.columns[k].1;
            assert(cols[k as int] == (self.columns@[k as int].0@, width));
            assert(vs[k as int] == values@[k as int]@);
            let (cut, _) = fit(values[k].as_str(), width as usize);
            canvas.text(x, y, cut.as_str(), style);
            x = sat_add_i32(sat_add_i32(x, width as i32), 1);
            k = k + 1;
        }
    }
}

impl Element for Table {
    fn focusable(&self) -> (r: bool)
        ensures
            r == (self@.rows.len() > 0),
    {
        self.rows.len() > 0
    }

    /// As wide as the columns and the cells between them, and one row more
    /// than the body.
    fn measure(&self, width: Option<u16>) -> (r: (u16, u16))
        ensures
            r.0 == sat_sub(widths_from(self@.columns, 0, 0), 1),
            r.1 == sat16(self@.rows.len() as int + 1),
    {
        let ghost cols = self@.columns;
        let mut n: u16 = 0;
        let mut k: usize = 0;
        while k < self.columns.len()
            invariant
                k <= self.columns@.len(),
                cols == self@.columns,
                widths_from(cols, n as int, k as int) == widths_from(cols, 0, 0),
            decreases self.columns@.len() - k,
        {
            assert(cols[k as int].1 == self.columns@[k as int].1);
            n = n.saturating_add(self.columns[k].1).saturating_add(1);
            k = k + 1;
        }
        let rows = self.rows.len().saturating_add(1);
        let down: u16 = if rows > 65535 { 65535 } else { rows as u16 };
        (n.saturating_sub(1), down)
    }

    /// A page is the body rows that fit beneath the header, at least one;
    /// the first row shown moves only as far as the selection requires.
    fn viewport(&mut self, size: (u16, u16), content: (u16, u16)) -> (r: (u16, u16))
        ensures
            final(self)@ == (TableView {
                page: if size.1 >= 2 {
                    (size.1 - 1) as usize
                } else {
                    1
                },
                offset: window_spec(
                    old(self)@.offset as int,
                    old(self)@.selected as int,
                    old(self)@.rows.len() as int,
                    if size.1 >= 2 {
                        size.1 - 1
                    } else {
                        1
                    },
                ) as usize,
                ..old(self)@
            }),
            r == (0u16, 0u16),
    {
        self.page = if size.1 >= 2 { (size.1 - 1) as usize } else { 1 };
        self.offset = window(self.offset, self.selected, self.rows.len(), self.page);
        (0, 0)
    }

    /// The header, then the page of body rows from the first shown, the
    /// selected one highlighted.
    fn paint(&self, canvas: &mut Canvas<'_>)
        ensures
            ({
                let t = self@;
                let count = t.rows.len() as int;
                let selected = least(t.selected as int, sat_sub(count, 1));
                let names = t.columns.map_values(|c: (Seq<char>, u16)| c.0);
                let headed = table_row(
                    old(canvas).frame(),
                    old(canvas).origin_spec(),
                    old(canvas).clip_spec(),
                    t.columns,
                    names,
                    0,
                    0,
                    t.header,
                    0,
                );
                final(canvas).frame() == table_body(
                    headed,
                    old(canvas).origin_spec(),
                    old(canvas).clip_spec(),
                    t,
                    selected,
                    t.offset as int,
                    least(t.offset + t.page, count),
                )
            }),
    {
        let mut names: Vec<String> = Vec::new();
        let mut k: usize = 0;
        while k < self.columns.len()
            invariant
                k <= self.columns@.len(),
                names@.len() == k,
                values_view(names@) == self@.columns.map_values(|c: (Seq<char>, u16)| c.0).take(k as int),
            decreases self.columns@.len() - k,
        {
            let ghost before = names@;
            assert(self@.columns[k as int] == (self.columns@[k as int].0@, self.columns@[k as int].1));
            let name = self.columns[k].0.clone();
            assert(name@ == self.columns@[k as int].0@);
            names.push(name);
            let ghost want = self@.columns.map_values(|c: (Seq<char>, u16)| c.0).take(k + 1);
            assert forall|j: int| 0 <= j < k + 1 implies values_view(names@)[j] == want[j] by {
                if j < k {
                    assert(values_view(before)[j] == want[j]);
                    assert(names@[j] == before[j]);
                }
            }
            assert(values_view(names@) =~= want);
            k = k + 1;
        }
        assert(self@.columns.map_values(|c: (Seq<char>, u16)| c.0).take(self.columns@.len() as int)
            =~= self@.columns.map_values(|c: (Seq<char>, u16)| c.0));
        self.row(canvas, 0, &names, self.header);
        let count = self.rows.len();
        let last = count.saturating_sub(1);
        let selected = if self.selected <= last { self.selected } else { last };
        let end = if self.offset >= count || count - self.offset <= self.page {
            count
        } else {
            self.offset + self.page
        };
        let ghost t = self@;
        let ghost origin = canvas.origin_spec();
        let ghost clip = canvas.clip_spec();
        let ghost total = table_body(canvas.frame(), origin, clip, t, selected as int, t.offset as int, end as int);
        let mut index = self.offset;
        while index < end
            invariant
                self.offset <= index,
                end <= count == self@.rows.len(),
                t == self@,
                origin == canvas.origin_spec(),
                clip == canvas.clip_spec(),
                canvas.origin_spec() == old(canvas).origin_spec(),
                canvas.clip_spec() == old(canvas).clip_spec(),
                canvas.size_spec() == old(canvas).size_spec(),
                canvas.focused_spec() == old(canvas).focused_spec(),
                canvas.frame().wf(),
                table_body(canvas.frame(), origin, clip, t, selected as int, index as int, end as int)
                    == total,
                end <= self.offset + self.page || end == count,
                end - self.offset <= self.page || self.offset >= count,
            decreases end - index,
        {
            let style = if index == selected { self.highlight } else { self.style };
            let y = index - self.offset;
            let line: i32 = if y >= 2147483647 { 2147483647 } else { (y + 1) as i32 };
            assert(t.rows[index as int] == values_view(self.rows@[index as int]@));
            assert(line == sat_i32(index - t.offset + 1));
            self.row(canvas, line, &self.rows[index], style);
            index = index + 1;
        }
    }

    /// Row zero is the header: arrows, paging, Home, End, the wheel, and
    /// clicks on body rows move the selection.
    fn event(&mut self, event: &Event) -> (r: Response)
        ensures
            ({
                let t = old(self)@;
                let count = t.rows.len() as int;
                let first = window_spec(t.offset as int, t.selected as int, count, t.page as int);
                match nav_target(*event, t.selected as int, first, count, t.page as int, 1) {
                    None => r == Response { handled: false, changed: false } && final(self)@ == t,
                    Some(target) => {
                        let next = least(target, sat_sub(count, 1));
                        &&& final(self)@ == TableView {
                            selected: next as usize,
                            offset: window_spec(first, next, count, t.page as int) as usize,
                            ..t
                        }
                        &&& r == if t.selected == next {
                            Response { handled: true, changed: false }
                        } else {
                            Response { handled: true, changed: true }
                        }
                    },
                }
            }),
    {
        let count = self.rows.len();
        let page = self.page;
        navigate(event, &mut self.selected, &mut self.offset, count, page, 1)
    }
}

} // verus!
