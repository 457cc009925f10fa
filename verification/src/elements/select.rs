//! A keyboard-selectable list with a viewport that follows selection.
use crate::buffer::{plain_style, BufferView, Style};
use crate::canvas::{canvas_text, Canvas};
use crate::element::Element;
use crate::event::{Event, Key, Response};
use crate::geometry::Rect;
use crate::unicode::{str_width, text_width};
use super::{least, sat_sub};
use vstd::prelude::*;

verus! {

/// A list of items, one selected, shown highlighted.
pub struct Select {
    pub items: Vec<String>,
    pub selected: usize,
    pub style: Style,
    pub highlight: Style,
}

/// The plain style, reversed.
pub open spec fn reversed() -> Style {
    Style { reverse: true, ..plain_style() }
}

impl Default for Select {
    fn default() -> (s: Self)
        ensures
            s.items@.len() == 0,
            s.selected == 0,
            s.style == plain_style(),
            s.highlight == plain_style(),
    {
        Select { items: Vec::new(), selected: 0, style: Style::default(), highlight: Style::default() }
    }
}

impl Select {
    pub fn new(items: Vec<String>) -> (s: Self)
        ensures
            s.items@ == items@,
            s.selected == 0,
            s.style == plain_style(),
            s.highlight == reversed(),
    {
        Select {
            items,
            selected: 0,
            style: Style::default(),
            highlight: Style { reverse: true, ..Style::default() },
        }
    }
}

/// The texts of the items.
pub open spec fn texts(items: Seq<String>) -> Seq<Seq<char>> {
    items.map_values(|s: String| s@)
}

/// The widest of the first `k` texts' columns.
pub open spec fn widest_text(items: Seq<Seq<char>>, k: int) -> int
    decreases k,
{
    if k <= 0 || k > items.len() {
        0
    } else {
        let w = str_width(items[k - 1]) as int;
        let rest = widest_text(items, k - 1);
        if w > rest {
            w
        } else {
            rest
        }
    }
}

/// A count kept to the largest `u16`.
pub open spec fn cap(n: int) -> int {
    if n > u16::MAX {
        u16::MAX as int
    } else {
        n
    }
}

/// Items from `i` to `end` on the rows from the top, the one at `offset`
/// on the first, the selected one highlighted.
pub open spec fn select_rows(
    b: BufferView,
    origin: (i32, i32),
    clip: Rect,
    items: Seq<Seq<char>>,
    selected: int,
    style: Style,
    highlight: Style,
    offset: int,
    i: int,
    end: int,
) -> BufferView
    decreases end - i,
{
    if i >= end || i < 0 || i >= items.len() {
        b
    } else {
        select_rows(
            canvas_text(b, origin, clip, 0, (i - offset) as i32, items[i], if i == selected {
                highlight
            } else {
                style
            }),
            origin,
            clip,
            items,
            selected,
            style,
            highlight,
            offset,
            i + 1,
            end,
        )
    }
}

/// The item a keyboard event selects among `count`, from `selected`; `None`
/// for other events.
pub open spec fn select_target(event: Event, selected: int, count: int) -> Option<int> {
    match event {
        Event::Key(Key::Up, _) => Some(sat_sub(selected, 1)),
        Event::Key(Key::Down, _) => Some(least(selected + 1, count - 1)),
        Event::Key(Key::Home, _) => Some(0),
        Event::Key(Key::End, _) => Some(count - 1),
        _ => None,
    }
}

impl Element for Select {
    fn focusable(&self) -> (r: bool)
        ensures
            r == (self.items@.len() > 0),
    {
        self.items.len() > 0
    }

    /// As wide as the widest item and one row per item.
    fn measure(&self, width: Option<u16>) -> (r: (u16, u16))
        ensures
            r.0 == cap(widest_text(texts(self.items@), self.items@.len() as int)),
            r.1 == cap(self.items@.len() as int),
    {
        let ghost ts = texts(self.items@);
        let mut widest: usize = 0;
        let mut k: usize = 0;
        while k < self.items.len()
            invariant
                k <= self.items@.len(),
                ts == texts(self.items@),
                widest == widest_text(ts, k as int),
            decreases self.items@.len() - k,
        {
            let w = text_width(self.items[k].as_str());
            assert(ts[k as int] == self.items@[k as int]@);
            if w > widest {
                widest = w;
            }
            k = k + 1;
        }
        let across: u16 = if widest > 65535 { 65535 } else { widest as u16 };
        let down: u16 = if self.items.len() > 65535 { 65535 } else { self.items.len() as u16 };
        (across, down)
    }

    /// The rows that fit, scrolled just enough to show the selected item.
    fn paint(&self, canvas: &mut Canvas<'_>)
        ensures
            ({
                let height = old(canvas).size_spec().1 as int;
                let count = self.items@.len() as int;
                let selected = least(self.selected as int, sat_sub(count, 1));
                let offset = sat_sub(selected, sat_sub(height, 1));
                final(canvas).frame() == select_rows(
                    old(canvas).frame(),
                    old(canvas).origin_spec(),
                    old(canvas).clip_spec(),
                    texts(self.items@),
                    selected,
                    self.style,
                    self.highlight,
                    offset,
                    offset,
                    least(offset + height, count),
                )
            }),
    {
        let height = canvas.size().1 as usize;
        let count = self.items.len();
        let last = count.saturating_sub(1);
        let selected = if self.selected <= last { self.selected } else { last };
        let offset = selected.saturating_sub(height.saturating_sub(1));
        let end = if count - offset <= height { count } else { offset + height };
        let ghost ts = texts(self.items@);
        let ghost origin = canvas.origin_spec();
        let ghost clip = canvas.clip_spec();
        let ghost total = select_rows(
            canvas.frame(),
            origin,
            clip,
            ts,
            selected as int,
            self.style,
            self.highlight,
            offset as int,
            offset as int,
            end as int,
        );
        let mut i = offset;
        while i < end
            invariant
                offset <= i,
                i <= end || i == offset,
                end <= count == self.items@.len(),
                end - offset <= height <= u16::MAX,
                ts == texts(self.items@),
                origin == canvas.origin_spec(),
                clip == canvas.clip_spec(),
                canvas.origin_spec() == old(canvas).origin_spec(),
                canvas.clip_spec() == old(canvas).clip_spec(),
                canvas.size_spec() == old(canvas).size_spec(),
                canvas.focused_spec() == old(canvas).focused_spec(),
                canvas.frame().wf(),
                select_rows(
                    canvas.frame(),
                    origin,
                    clip,
                    ts,
                    selected as int,
                    self.style,
                    self.highlight,
                    offset as int,
                    i as int,
                    end as int,
                ) == total,
            decreases end - i,
        {
            let style = if i == selected { self.highlight } else { self.style };
            assert(ts[i as int] == self.items@[i as int]@);
            canvas.text(0, (i - offset) as i32, self.items[i].as_str(), style);
            i = i + 1;
        }
    }

    /// Up, Down, Home, and End move the selection among the items, kept
    /// among them; other events, and any event with no items, are left to
    /// bubble.
    fn event(&mut self, event: &Event) -> (r: Response)
        ensures
            final(self).items@ == old(self).items@,
            final(self).style == old(self).style,
            final(self).highlight == old(self).highlight,
            ({
                let count = old(self).items@.len() as int;
                let ignore = Response { handled: false, changed: false };
                let kept = least(old(self).selected as int, count - 1);
                if count == 0 {
                    r == ignore && final(self).selected == old(self).selected
                } else {
                    match select_target(*event, kept, count) {
                        None => r == ignore && final(self).selected == kept,
                        Some(t) => r == Response { handled: true, changed: true } && final(self).selected == t,
                    }
                }
            }),
    {
        if self.items.len() == 0 {
            return Response::ignore();
        }
        let last = self.items.len() - 1;
        if self.selected > last {
            self.selected = last;
        }
        match event {
            Event::Key(Key::Up, _) => self.selected = self.selected.saturating_sub(1),
            Event::Key(Key::Down, _) => {
                self.selected = if self.selected + 1 <= last { self.selected + 1 } else { last };
            },
            Event::Key(Key::Home, _) => self.selected = 0,
            Event::Key(Key::End, _) => self.selected = last,
            _ => {
                return Response::ignore();
            },
        }
        Response::repaint()
    }
}

/// With items to choose from, the selection stays among them after any
/// event.
pub proof fn selection_stays_among_items(event: Event, selected: int, count: int)
    requires
        0 <= selected,
        0 < count,
    ensures
        select_target(event, least(selected, count - 1), count) matches Some(t) ==> 0 <= t < count,
{
}

} // verus!
