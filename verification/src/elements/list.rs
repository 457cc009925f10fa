//! A fixed-height list that asks its row provider only for visible rows.
use crate::buffer::{plain_style, BufferView, Style};
use crate::canvas::{canvas_text, Canvas};
use crate::element::Element;
use crate::event::{Event, Key, Response};
use crate::geometry::Rect;
use super::{least, sat_add, sat_sub};
use super::text::strings;
use vstd::prelude::*;

verus! {

/// The row provider, which accepts every index.
struct Rows<F: Fn(usize) -> String> {
    provide: F,
}

impl<F: Fn(usize) -> String> Rows<F> {
    #[verifier::type_invariant]
    spec fn total(self) -> bool {
        forall|i: usize| #[trigger] call_requires(self.provide, (i,))
    }
}

/// Rows have one terminal line each. The application owns the underlying
/// data; `count` and the row provider allow lists larger than terminal
/// coordinate limits.
pub struct List<F: Fn(usize) -> String> {
    pub count: usize,
    pub selected: usize,
    pub width: u16,
    pub style: Style,
    pub highlight: Style,
    row: Rows<F>,
    page: usize,
}

/// What a list holds besides its row provider: how many rows, the one
/// selected, its width, its styles, and the rows a page scrolls by.
pub struct ListView {
    pub count: usize,
    pub selected: usize,
    pub width: u16,
    pub style: Style,
    pub highlight: Style,
    pub page: usize,
}

impl<F: Fn(usize) -> String> View for List<F> {
    type V = ListView;

    closed spec fn view(&self) -> ListView {
        ListView {
            count: self.count,
            selected: self.selected,
            width: self.width,
            style: self.style,
            highlight: self.highlight,
            page: self.page,
        }
    }
}

impl<F: Fn(usize) -> String> List<F> {
    /// The row provider.
    pub closed spec fn provider(&self) -> F {
        self.row.provide
    }

    /// `row` gives the text of the row at an index, and accepts every
    /// index.
    pub fn new(count: usize, width: u16, row: F) -> (l: Self)
        requires
            forall|i: usize| #[trigger] call_requires(row, (i,)),
        ensures
            l@ == (ListView {
                count,
                selected: 0,
                width,
                style: plain_style(),
                highlight: Style { reverse: true, ..plain_style() },
                page: 1,
            }),
            l.provider() == row,
    {
        List {
            count,
            selected: 0,
            width,
            style: Style::default(),
            highlight: Style { reverse: true, ..Style::default() },
            row: Rows { provide: row },
            page: 1,
        }
    }
}

/// Rows from the `k`th shown on, the first shown being row `offset`, the
/// selected one highlighted.
pub open spec fn list_rows(
    b: BufferView,
    origin: (i32, i32),
    clip: Rect,
    texts: Seq<Seq<char>>,
    offset: int,
    selected: int,
    style: Style,
    highlight: Style,
    k: int,
) -> BufferView
    decreases texts.len() - k,
{
    if k < 0 || k >= texts.len() {
        b
    } else {
        list_rows(
            canvas_text(b, origin, clip, 0, k as i32, texts[k], if offset + k == selected {
                highlight
            } else {
                style
            }),
            origin,
            clip,
            texts,
            offset,
            selected,
            style,
            highlight,
            k + 1,
        )
    }
}

/// Where a key moves the selection, before it is kept among the rows;
/// `None` for other events.
pub open spec fn list_target(event: Event, selected: int, count: int, page: int) -> Option<int> {
    match event {
        Event::Key(Key::Up, _) => Some(sat_sub(selected, 1)),
        Event::Key(Key::Down, _) => Some(sat_add(selected, 1)),
        Event::Key(Key::PageUp, _) => Some(sat_sub(selected, page)),
        Event::Key(Key::PageDown, _) => Some(sat_add(selected, page)),
        Event::Key(Key::Home, _) => Some(0),
        Event::Key(Key::End, _) => Some(sat_sub(count, 1)),
        _ => None,
    }
}

impl<F: Fn(usize) -> String> Element for List<F> {
    fn focusable(&self) -> (r: bool)
        ensures
            r == (self@.count > 0),
    {
        self.count > 0
    }

    fn measure(&self, width: Option<u16>) -> (r: (u16, u16))
        ensures
            r == (self@.width, if self@.count > u16::MAX {
                u16::MAX
            } else {
                self@.count as u16
            }),
    {
        (self.width, if self.count > 65535 { 65535 } else { self.count as u16 })
    }

    /// Paging moves by the rows the list is given.
    fn viewport(&mut self, size: (u16, u16), content: (u16, u16)) -> (r: (u16, u16))
        ensures
            final(self)@ == (ListView {
                page: if size.1 >= 1 {
                    size.1 as usize
                } else {
                    1
                },
                ..old(self)@
            }),
            final(self).provider() == old(self).provider(),
            r == (0u16, 0u16),
    {
        self.page = if size.1 >= 1 { size.1 as usize } else { 1 };
        (0, 0)
    }

    /// The rows that fit, scrolled just enough to show the selected one;
    /// the provider is asked for those rows alone, each once.
    fn paint(&self, canvas: &mut Canvas<'_>)
        ensures
            ({
                let height = old(canvas).size_spec().1 as int;
                let count = self@.count as int;
                let selected = least(self@.selected as int, sat_sub(count, 1));
                let offset = sat_sub(selected, sat_sub(height, 1));
                let shown = least(height, count - offset);
                exists|texts: Seq<String>|
                    {
                        &&& texts.len() == shown
                        &&& forall|k: int|
                            0 <= k < shown ==> call_ensures(
                                self.provider(),
                                ((offset + k) as usize,),
                                #[trigger] texts[k],
                            )
                        &&& final(canvas).frame() == list_rows(
                            old(canvas).frame(),
                            old(canvas).origin_spec(),
                            old(canvas).clip_spec(),
                            strings(texts),
                            offset,
                            selected,
                            self@.style,
                            self@.highlight,
                            0,
                        )
                    }
            }),
    {
        proof {
            use_type_invariant(&self.row);
        }
        let height = canvas.size().1 as usize;
        let last = self.count.saturating_sub(1);
        let selected = if self.selected <= last { self.selected } else { last };
        let offset = selected.saturating_sub(height.saturating_sub(1));
        let shown = if self.count - offset <= height { self.count - offset } else { height };
        let ghost origin = canvas.origin_spec();
        let ghost clip = canvas.clip_spec();
        let ghost start = canvas.frame();
        let mut texts: Vec<String> = Vec::new();
        let mut k: usize = 0;
        while k < shown
            invariant
                k <= shown <= height <= u16::MAX,
                offset + shown <= self.count,
                texts@.len() == k,
                forall|j: int| 0 <= j < k ==> call_ensures(self.row.provide, ((offset + j) as usize,), #[trigger] texts@[j]),
                forall|i: usize| #[trigger] call_requires(self.row.provide, (i,)),
            decreases shown - k,
        {
            let text = (self.row.provide)(offset + k);
            texts.push(text);
            k = k + 1;
        }
        let ghost ts = strings(texts@);
        let ghost total = list_rows(start, origin, clip, ts, offset as int, selected as int, self.style, self.highlight, 0);
        let mut k: usize = 0;
        while k < shown
            invariant
                k <= shown <= height <= u16::MAX,
                texts@.len() == shown,
                offset + shown <= self.count,
                ts == strings(texts@),
                origin == canvas.origin_spec(),
                clip == canvas.clip_spec(),
                canvas.origin_spec() == old(canvas).origin_spec(),
                canvas.clip_spec() == old(canvas).clip_spec(),
                canvas.size_spec() == old(canvas).size_spec(),
                canvas.focused_spec() == old(canvas).focused_spec(),
                canvas.frame().wf(),
                list_rows(canvas.frame(), origin, clip, ts, offset as int, selected as int, self.style, self.highlight, k as int) == total,
            decreases shown - k,
        {
            let style = if offset + k == selected { self.highlight } else { self.style };
            assert(ts[k as int] == texts@[k as int]@);
            canvas.text(0, k as i32, texts[k].as_str(), style);
            k = k + 1;
        }
        assert(canvas.frame() == total);
    }

    /// Arrows, paging, Home, and End move the selection, kept among the
    /// rows; the event is consumed, and the list changes when the
    /// selection does.
    fn event(&mut self, event: &Event) -> (r: Response)
        ensures
            final(self).provider() == old(self).provider(),
            ({
                let s = old(self)@;
                match list_target(*event, s.selected as int, s.count as int, s.page as int) {
                    None => r == Response { handled: false, changed: false } && final(self)@ == s,
                    Some(t) => {
                        let next = least(t, sat_sub(s.count as int, 1));
                        &&& final(self)@ == ListView { selected: next as usize, ..s }
                        &&& r == Response { handled: true, changed: next != s.selected }
                    },
                }
            }),
    {
        let before = self.selected;
        let target = match event {
            Event::Key(Key::Up, _) => self.selected.saturating_sub(1),
            Event::Key(Key::Down, _) => self.selected.saturating_add(1),
            Event::Key(Key::PageUp, _) => self.selected.saturating_sub(self.page),
            Event::Key(Key::PageDown, _) => self.selected.saturating_add(self.page),
            Event::Key(Key::Home, _) => 0,
            Event::Key(Key::End, _) => self.count.saturating_sub(1),
            _ => {
                return Response::ignore();
            },
        };
        let last = self.count.saturating_sub(1);
        self.selected = if target <= last { target } else { last };
        Response { handled: true, changed: self.selected != before }
    }
}

} // verus!
