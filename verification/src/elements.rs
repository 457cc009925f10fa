//! Built-in terminal elements. Applications can implement `Element` for
//! their own types.
use crate::buffer::{plain_style, BufferView, Color, Style};
use crate::canvas::{border_spec, canvas_text, fill_rows, Canvas};
use crate::element::Element;
use crate::event::{Button, Event, Key, MouseKind, Response};
use crate::geometry::Rect;
use crate::unicode::{grapheme_clusters, graphemes, push_str, str_width, text_width};
use vstd::prelude::*;

mod lazy;
mod list;
mod input;
mod rich;
mod scroll;
mod select;
mod table;
mod textarea;
mod text;

pub use crate::pixels::{split, Blocks, Pixels};
pub use input::{Input, InputView};
pub use lazy::Lazy;
pub use list::List;
pub use rich::{RichText, RichTextView};
pub use scroll::Scroll;
pub use select::Select;
pub use table::Table;
pub use textarea::{Textarea, TextareaView};
pub use text::Text;

verus! {

/// `a - b`, or zero when `b` is larger.
pub open spec fn sat_sub(a: int, b: int) -> int {
    if a >= b {
        a - b
    } else {
        0
    }
}

/// `a + b`, at most the largest `usize`.
pub open spec fn sat_add(a: int, b: int) -> int {
    if a + b > usize::MAX {
        usize::MAX as int
    } else {
        a + b
    }
}

/// The smaller of two integers.
pub open spec fn least(a: int, b: int) -> int {
    if a <= b {
        a
    } else {
        b
    }
}

/// The first row to show so that `selected` is within `height` rows: the
/// current `offset`, moved only as far as the selection requires, and never
/// past the last rows.
pub open spec fn window_spec(offset: int, selected: int, count: int, height: int) -> int {
    let h = if height >= 1 {
        height
    } else {
        1
    };
    let s = least(selected, sat_sub(count, 1));
    let first = if s < offset {
        s
    } else if s >= offset + h {
        s + 1 - h
    } else {
        offset
    };
    least(first, sat_sub(count, h))
}

/// The first row to show so that `selected` is within `height` rows: the
/// current `offset`, moved only as far as the selection requires. A view
/// that followed the selection instead would slide under the pointer on a
/// click.
pub fn window(offset: usize, selected: usize, count: usize, height: usize) -> (first: usize)
    ensures
        first == window_spec(offset as int, selected as int, count as int, height as int),
{
    let height = if height >= 1 { height } else { 1 };
    let last = if count >= 1 { count - 1 } else { 0 };
    let selected = if selected <= last { selected } else { last };
    let first = if selected < offset {
        selected
    } else if selected - offset >= height {
        selected + 1 - height
    } else {
        offset
    };
    let bound = if count >= height { count - height } else { 0 };
    if first <= bound {
        first
    } else {
        bound
    }
}

/// The selection is always shown: with rows to show, the window starts at
/// or before the selection and reaches past it, and it never shows rows
/// beyond the last unless all of them fit.
pub proof fn window_shows_selection(offset: int, selected: int, count: int, height: int)
    requires
        0 <= offset,
        0 <= selected,
        0 < count,
    ensures
        ({
            let w = window_spec(offset, selected, count, height);
            let h = if height >= 1 {
                height
            } else {
                1
            };
            let s = least(selected, count - 1);
            &&& 0 <= w <= s < w + h
            &&& w + h <= count || w == 0
        }),
{
}

/// Where a navigation event moves the selection, before it is kept among
/// the rows: `None` for an event that is not navigation. A left click on a
/// row below the `header` rows selects it, counted from the `first` row
/// shown.
pub open spec fn nav_target(event: Event, selected: int, first: int, count: int, page: int, header: u16) -> Option<
    int,
> {
    match event {
        Event::Mouse(m) => match m.kind {
            MouseKind::Down(Button::Left) => if m.y >= header {
                Some(sat_add(first, m.y - header))
            } else {
                None
            },
            MouseKind::ScrollUp => Some(sat_sub(selected, 1)),
            MouseKind::ScrollDown => Some(sat_add(selected, 1)),
            _ => None,
        },
        Event::Key(Key::Up, _) => Some(sat_sub(selected, 1)),
        Event::Key(Key::Down, _) => Some(sat_add(selected, 1)),
        Event::Key(Key::PageUp, _) => Some(sat_sub(selected, page)),
        Event::Key(Key::PageDown, _) => Some(sat_add(selected, page)),
        Event::Key(Key::Home, _) => Some(0),
        Event::Key(Key::End, _) => Some(sat_sub(count, 1)),
        _ => None,
    }
}

/// Move a selection among `count` rows, shown `page` at a time from
/// `offset`, for arrows, paging, Home, End, the wheel, and a left click on
/// a row. Clicks on the `header` rows above the first row are ignored. The
/// offset moves as `window` moves it. Navigation is consumed even at
/// either end.
pub fn navigate(
    event: &Event,
    selected: &mut usize,
    offset: &mut usize,
    count: usize,
    page: usize,
    header: u16,
) -> (r: Response)
    ensures
        ({
            let first = window_spec(*old(offset) as int, *old(selected) as int, count as int, page as int);
            match nav_target(*event, *old(selected) as int, first, count as int, page as int, header) {
                None => {
                    &&& r == Response { handled: false, changed: false }
                    &&& *final(selected) == *old(selected)
                    &&& *final(offset) == *old(offset)
                },
                Some(t) => {
                    let next = least(t, sat_sub(count as int, 1));
                    &&& *final(selected) == next
                    &&& *final(offset) == window_spec(first, next, count as int, page as int)
                    &&& r == if *old(selected) == next {
                        Response { handled: true, changed: false }
                    } else {
                        Response { handled: true, changed: true }
                    }
                },
            }
        }),
{
    let first = window(*offset, *selected, count, page);
    let target: usize = match event {
        Event::Mouse(mouse) => match mouse.kind {
            MouseKind::Down(Button::Left) => {
                if mouse.y >= header {
                    first.saturating_add((mouse.y - header) as usize)
                } else {
                    return Response::ignore();
                }
            },
            MouseKind::ScrollUp => selected.saturating_sub(1),
            MouseKind::ScrollDown => selected.saturating_add(1),
            _ => {
                return Response::ignore();
            },
        },
        Event::Key(Key::Up, _) => selected.saturating_sub(1),
        Event::Key(Key::Down, _) => selected.saturating_add(1),
        Event::Key(Key::PageUp, _) => selected.saturating_sub(page),
        Event::Key(Key::PageDown, _) => selected.saturating_add(page),
        Event::Key(Key::Home, _) => 0,
        Event::Key(Key::End, _) => count.saturating_sub(1),
        _ => {
            return Response::ignore();
        },
    };
    let last = count.saturating_sub(1);
    let next = if target <= last { target } else { last };
    *offset = window(first, next, count, page);
    let before = *selected;
    *selected = next;
    if before == next {
        Response::handled()
    } else {
        Response::repaint()
    }
}

/// How many of the graphemes fit in `width` columns, one after another,
/// stopping at the first that does not.
pub open spec fn fit_count(gs: Seq<Seq<char>>, width: int) -> int
    decreases gs.len(),
{
    if gs.len() == 0 || str_width(gs[0]) > width {
        0
    } else {
        1 + fit_count(gs.drop_first(), width - str_width(gs[0]))
    }
}

/// The columns the graphemes take, one after another.
pub open spec fn columns_of(gs: Seq<Seq<char>>) -> int
    decreases gs.len(),
{
    if gs.len() == 0 {
        0
    } else {
        str_width(gs[0]) + columns_of(gs.drop_first())
    }
}

/// The longest start of `text`, in whole graphemes, that fits in `width`
/// columns.
pub open spec fn fit_spec(text: Seq<char>, width: int) -> Seq<char> {
    let gs = grapheme_clusters(text);
    gs.take(fit_count(gs, width)).flatten()
}

/// The graphemes that fit take no more than the width.
proof fn fit_fits(gs: Seq<Seq<char>>, width: int)
    requires
        width >= 0,
    ensures
        0 <= fit_count(gs, width) <= gs.len(),
        0 <= columns_of(gs.take(fit_count(gs, width))) <= width,
    decreases gs.len(),
{
    if gs.len() > 0 && str_width(gs[0]) <= width {
        fit_fits(gs.drop_first(), width - str_width(gs[0]));
        let n = fit_count(gs, width);
        assert(gs.take(n).drop_first() =~= gs.drop_first().take(n - 1));
    } else {
        assert(gs.take(0).len() == 0);
    }
}

/// The longest start of `text`, in whole graphemes, that fits in `width`
/// columns, and the columns it takes.
pub fn fit(text: &str, width: usize) -> (r: (String, usize))
    ensures
        r.0@ == fit_spec(text@, width as int),
        r.1 == columns_of(grapheme_clusters(text@).take(fit_count(grapheme_clusters(text@), width as int))),
        r.1 <= width,
{
    let gs = graphemes(text);
    let ghost gv = gs@.map_values(|g: String| g@);
    proof {
        fit_fits(gv, width as int);
    }
    let mut out = String::new();
    let mut used: usize = 0;
    let mut i: usize = 0;
    let mut done = false;
    assert(gv.skip(0) =~= gv);
    while i < gs.len() && !done
        invariant
            i <= gs@.len(),
            gv == gs@.map_values(|g: String| g@),
            gv == grapheme_clusters(text@),
            used <= width,
            fit_count(gv, width as int) == i + fit_count(gv.skip(i as int), width - used),
            done ==> fit_count(gv.skip(i as int), width - used) == 0,
            out@ == gv.take(i as int).flatten(),
            used == columns_of(gv.take(i as int)),
        decreases gs@.len() - i, if done { 0int } else { 1int },
    {
        let w = text_width(gs[i].as_str());
        assert(gv.skip(i as int)[0] == gv[i as int]);
        if w > width - used {
            done = true;
        } else {
            push_str(&mut out, gs[i].as_str());
            proof {
                assert(gv.skip(i as int).drop_first() =~= gv.skip(i + 1));
                assert(gv.take(i + 1) =~= gv.take(i as int).push(gv[i as int]));
                gv.take(i as int).lemma_flatten_push(gv[i as int]);
                columns_push(gv.take(i as int), gv[i as int]);
            }
            used = used + w;
            i = i + 1;
        }
    }
    proof {
        if i == gs@.len() {
            assert(gv.skip(i as int).len() == 0);
        }
    }
    (out, used)
}

/// Adding a grapheme at the end adds its columns.
proof fn columns_push(gs: Seq<Seq<char>>, g: Seq<char>)
    ensures
        columns_of(gs.push(g)) == columns_of(gs) + str_width(g),
    decreases gs.len(),
{
    if gs.len() > 0 {
        assert(gs.push(g).drop_first() =~= gs.drop_first().push(g));
        assert(gs.push(g)[0] == gs[0]);
        columns_push(gs.drop_first(), g);
    } else {
        assert(gs.push(g).drop_first() =~= Seq::<Seq<char>>::empty());
        assert(gs.push(g)[0] == g);
        assert(columns_of(Seq::<Seq<char>>::empty()) == 0);
    }
}

/// A layout-only container, useful for rows, columns, and grids.
#[derive(Default)]
pub struct Container;

impl Element for Container {

}

/// What painting a panel's title makes of the frame: a space, the title cut
/// to fit between the corners and a cell of edge on each side, and a space.
pub open spec fn title_spec(
    b: BufferView,
    origin: (i32, i32),
    clip: Rect,
    size: (u16, u16),
    style: Style,
    title: Seq<char>,
) -> BufferView {
    let room = sat_sub(size.0 as int, 6);
    if title.len() == 0 || room == 0 || size.1 < 2 {
        b
    } else {
        let cut = fit_spec(title, room);
        let gs = grapheme_clusters(title);
        let width = columns_of(gs.take(fit_count(gs, room)));
        let b1 = canvas_text(b, origin, clip, 2, 0, seq![' '], style);
        let b2 = canvas_text(b1, origin, clip, 3, 0, cut, style);
        canvas_text(b2, origin, clip, (3 + width) as i32, 0, seq![' '], style)
    }
}

/// What painting a panel makes of the frame: a fill when its style has a
/// background, the border, and the title.
pub open spec fn panel_spec(
    b: BufferView,
    origin: (i32, i32),
    clip: Rect,
    size: (u16, u16),
    style: Style,
    title: Seq<char>,
) -> BufferView {
    let filled = if style.bg != Color::Default {
        fill_rows(b, origin, clip, size.0 as nat, 0, size.1 as int, Style { bg: style.bg, ..plain_style() })
    } else {
        b
    };
    let bordered = border_spec(filled, origin, clip, size.0 as int, size.1 as int, style);
    title_spec(bordered, origin, clip, size, style, title)
}

/// A bordered container. A background color in `style` fills the panel,
/// which makes it opaque over whatever it overlaps. The title sits in the
/// top edge and is cut to fit.
pub struct Panel {
    pub style: Style,
    pub title: String,
}

impl Default for Panel {
    fn default() -> (p: Self)
        ensures
            p.style == plain_style(),
            p.title@ == Seq::<char>::empty(),
    {
        Panel { style: Style::default(), title: String::new() }
    }
}

impl Element for Panel {
    fn paint(&self, canvas: &mut Canvas<'_>)
        ensures
            final(canvas).frame() == panel_spec(
                old(canvas).frame(),
                old(canvas).origin_spec(),
                old(canvas).clip_spec(),
                old(canvas).size_spec(),
                self.style,
                self.title@,
            ),
    {
        let ghost b0 = canvas.frame();
        let ghost origin = canvas.origin_spec();
        let ghost clip = canvas.clip_spec();
        let ghost size0 = canvas.size_spec();
        if self.style.bg != Color::Default {
            canvas.fill(Style { bg: self.style.bg, ..Style::default() });
        }
        let ghost filled = canvas.frame();
        assert(filled == if self.style.bg != Color::Default {
            fill_rows(b0, origin, clip, size0.0 as nat, 0, size0.1 as int, Style { bg: self.style.bg, ..plain_style() })
        } else {
            b0
        });
        canvas.border(self.style);
        assert(canvas.frame() == border_spec(filled, origin, clip, size0.0 as int, size0.1 as int, self.style));
        let size = canvas.size();
        let room = (size.0 as usize).saturating_sub(6);
        let chars = self.title.as_str().unicode_len();
        if chars == 0 || room == 0 || size.1 < 2 {
            return;
        }
        let (title, width) = fit(self.title.as_str(), room);
        let ghost bordered = canvas.frame();
        let space = " ";
        proof {
            reveal_strlit(" ");
            assert(space@ =~= seq![' ']);
        }
        canvas.text(2, 0, space, self.style);
        let ghost b1 = canvas.frame();
        assert(b1 == canvas_text(bordered, origin, clip, 2, 0, seq![' '], self.style));
        canvas.text(3, 0, title.as_str(), self.style);
        let ghost b2 = canvas.frame();
        assert(b2 == canvas_text(b1, origin, clip, 3, 0, fit_spec(self.title@, room as int), self.style));
        canvas.text(3 + width as i32, 0, space, self.style);
        assert(canvas.frame() == canvas_text(b2, origin, clip, (3 + width) as i32, 0, seq![' '], self.style));
        assert(room == sat_sub(size0.0 as int, 6));
        assert(canvas.frame() == title_spec(bordered, origin, clip, size0, self.style, self.title@));
    }
}

} // verus!
