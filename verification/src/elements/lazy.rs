//! A virtualized column of element subtrees, laid out only where in view.
use crate::element::Element;
use crate::event::{Event, Key, MouseKind, Response};
use crate::tree::Id;
use vstd::prelude::*;

verus! {

/// A long column of element subtrees, such as messages that each carry
/// their own header and controls. Positions are a child and a row within
/// it rather than a row count, because the rows above the view are never
/// measured. With `follow`, the view shows the tail and stays there as
/// children arrive; scrolling away clears it. Scrolling is settled at the
/// next paint, where children can be measured.
pub struct Lazy {
    pub follow: bool,
    top: Option<(Id, usize, usize)>,
    pending: isize,
    reveal: Option<(usize, usize, usize)>,
    ends: (bool, bool),
    height: u16,
}

/// What a lazy column holds: whether it follows the tail; the first
/// visible row, as the child it is in, that child's index when last
/// painted, and a row within it; rows to scroll by at the next paint; rows
/// of a child to bring into view then; whether the last paint showed the
/// first row and the tail; and the height of the last paint.
pub struct LazyView {
    pub follow: bool,
    pub top: Option<(Id, usize, usize)>,
    pub pending: isize,
    pub reveal: Option<(usize, usize, usize)>,
    pub ends: (bool, bool),
    pub height: u16,
}

impl View for Lazy {
    type V = LazyView;

    closed spec fn view(&self) -> LazyView {
        LazyView {
            follow: self.follow,
            top: self.top,
            pending: self.pending,
            reveal: self.reveal,
            ends: self.ends,
            height: self.height,
        }
    }
}

impl Default for Lazy {
    fn default() -> (l: Self)
        ensures
            l@ == (LazyView {
                follow: false,
                top: None,
                pending: 0,
                reveal: None,
                ends: (false, false),
                height: 0,
            }),
    {
        Lazy { follow: false, top: None, pending: 0, reveal: None, ends: (false, false), height: 0 }
    }
}

/// `a + b`, kept within `isize`.
pub open spec fn sat_isize(a: int, b: int) -> int {
    if a + b > isize::MAX {
        isize::MAX as int
    } else if a + b < isize::MIN {
        isize::MIN as int
    } else {
        a + b
    }
}

/// A lazy column after an event, and the response. Nothing moves before a
/// paint has measured the view. Home and End jump to either end unless the
/// view is there already; rows, pages and the wheel scroll by the next
/// paint, unless the view already shows that end, when the event bubbles.
pub open spec fn lazy_event(v: LazyView, event: Event) -> (LazyView, Response) {
    let ignored = Response { handled: false, changed: false };
    let repaint = Response { handled: true, changed: true };
    let page: int = v.height as int;
    let (first, last) = v.ends;
    let by: Option<int> = match event {
        Event::Key(Key::Up, _) => Some(-1),
        Event::Key(Key::Down, _) => Some(1),
        Event::Key(Key::PageUp, _) => Some(-page),
        Event::Key(Key::PageDown, _) => Some(page),
        Event::Mouse(mouse) => if mouse.kind == MouseKind::ScrollUp {
            Some(-1)
        } else if mouse.kind == MouseKind::ScrollDown {
            Some(1)
        } else {
            None
        },
        _ => None,
    };
    if v.height == 0 {
        (v, ignored)
    } else {
        match by {
            Some(b) => if (b < 0 && first) || (b > 0 && last) {
                (v, ignored)
            } else {
                (LazyView { follow: false, pending: sat_isize(v.pending as int, b) as isize, ..v }, repaint)
            },
            None => match event {
                Event::Key(Key::Home, _) => if !first {
                    (LazyView { top: None, follow: false, pending: 0, ..v }, repaint)
                } else {
                    (v, ignored)
                },
                Event::Key(Key::End, _) => if !last || !v.follow {
                    (LazyView { follow: true, pending: 0, ..v }, repaint)
                } else {
                    (v, ignored)
                },
                _ => (v, ignored),
            },
        }
    }
}

impl Lazy {
    /// Ask the next paint to show `size` rows of the child at `index`,
    /// starting at `row`. The tree calls it when focus moves inside the
    /// child.
    pub fn show(&mut self, index: usize, row: usize, size: usize)
        ensures
            final(self)@ == (LazyView { reveal: Some((index, row, size)), ..old(self)@ }),
    {
        self.reveal = Some((index, row, size));
    }
}

impl Element for Lazy {
    fn focusable(&self) -> (r: bool)
        ensures
            r,
    {
        true
    }

    /// Scrolling is settled at the next paint, where children can be
    /// measured, so an event that would move past either end is left to
    /// bubble.
    fn event(&mut self, event: &Event) -> (r: Response)
        ensures
            (final(self)@, r) == lazy_event(old(self)@, *event),
    {
        if self.height == 0 {
            return Response::ignore();
        }
        let page: isize = self.height as isize;
        let (first, last) = self.ends;
        let by: isize = match event {
            Event::Key(Key::Up, _) => -1,
            Event::Key(Key::Down, _) => 1,
            Event::Key(Key::PageUp, _) => -page,
            Event::Key(Key::PageDown, _) => page,
            Event::Mouse(mouse) => {
                if mouse.kind == MouseKind::ScrollUp {
                    -1
                } else if mouse.kind == MouseKind::ScrollDown {
                    1
                } else {
                    return Response::ignore();
                }
            },
            Event::Key(Key::Home, _) => {
                if !first {
                    self.top = None;
                    self.follow = false;
                    self.pending = 0;
                    return Response::repaint();
                }
                return Response::ignore();
            },
            Event::Key(Key::End, _) => {
                if !last || !self.follow {
                    self.follow = true;
                    self.pending = 0;
                    return Response::repaint();
                }
                return Response::ignore();
            },
            _ => {
                return Response::ignore();
            },
        };
        if (by < 0 && first) || (by > 0 && last) {
            return Response::ignore();
        }
        self.follow = false;
        self.pending = match self.pending.checked_add(by) {
            Some(p) => p,
            None => if by > 0 {
                isize::MAX
            } else {
                isize::MIN
            },
        };
        Response::repaint()
    }
}

} // verus!
