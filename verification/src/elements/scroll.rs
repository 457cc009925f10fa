//! A clipped vertical viewport with explicit scrolling and optional tail
//! following.
use crate::element::Element;
use crate::event::{Event, Key, MouseKind, Response};
use vstd::prelude::*;

verus! {

/// A vertical viewport over content taller than it. It scrolls by rows,
/// pages, and to either end, and with `follow` it keeps showing the tail.
pub struct Scroll {
    pub offset: u16,
    pub follow: bool,
    limit: u16,
    page: u16,
}

/// What a scroll view holds: its offset, whether it follows the tail, the
/// most rows that can be above the view, and the rows in the view.
pub struct ScrollView {
    pub offset: u16,
    pub follow: bool,
    pub limit: u16,
    pub page: u16,
}

impl View for Scroll {
    type V = ScrollView;

    closed spec fn view(&self) -> ScrollView {
        ScrollView { offset: self.offset, follow: self.follow, limit: self.limit, page: self.page }
    }
}

impl Default for Scroll {
    fn default() -> (s: Self)
        ensures
            s@ == (ScrollView { offset: 0, follow: false, limit: 0, page: 0 }),
    {
        Scroll { offset: 0, follow: false, limit: 0, page: 0 }
    }
}

/// A row count kept to the largest `u16`.
pub open spec fn sat16(v: int) -> int {
    if v > u16::MAX {
        u16::MAX as int
    } else {
        v
    }
}

/// The offset after a scrolling event, from `offset` with at most `limit`
/// rows above the view and `page` rows in it, a page being at least a row;
/// `None` for other events.
pub open spec fn scrolled(event: Event, offset: u16, limit: u16, page: u16) -> Option<int> {
    let step: int = if page >= 1 {
        page as int
    } else {
        1
    };
    let up = |by: int|
        if offset >= by {
            offset - by
        } else {
            0
        };
    let down = |by: int|
        if sat16(offset + by) <= limit {
            sat16(offset + by)
        } else {
            limit as int
        };
    match event {
        Event::Key(Key::Up, _) => Some(up(1)),
        Event::Key(Key::Down, _) => Some(down(1)),
        Event::Key(Key::PageUp, _) => Some(up(step)),
        Event::Key(Key::PageDown, _) => Some(down(step)),
        Event::Key(Key::Home, _) => Some(0),
        Event::Key(Key::End, _) => Some(limit as int),
        Event::Mouse(m) => match m.kind {
            MouseKind::ScrollUp => Some(up(1)),
            MouseKind::ScrollDown => Some(down(1)),
            _ => None,
        },
        _ => None,
    }
}

impl Element for Scroll {
    fn focusable(&self) -> (r: bool)
        ensures
            r,
    {
        true
    }

    /// Told the view's size and the content's, keep the offset within the
    /// content, or at its tail when following.
    fn viewport(&mut self, size: (u16, u16), content: (u16, u16)) -> (r: (u16, u16))
        ensures
            final(self)@.page == size.1,
            final(self)@.limit == if content.1 >= size.1 {
                content.1 - size.1
            } else {
                0
            },
            final(self)@.offset == if old(self)@.follow {
                final(self)@.limit
            } else if old(self)@.offset <= final(self)@.limit {
                old(self)@.offset
            } else {
                final(self)@.limit
            },
            final(self)@.follow == old(self)@.follow,
            r == (0u16, final(self)@.offset),
    {
        self.page = size.1;
        self.limit = content.1.saturating_sub(size.1);
        self.offset = if self.follow {
            self.limit
        } else if self.offset <= self.limit {
            self.offset
        } else {
            self.limit
        };
        (0, self.offset)
    }

    /// Scroll by a row, a page, or to either end. The view follows the tail
    /// exactly when it ends there. An event that moves nothing is not
    /// consumed.
    fn event(&mut self, event: &Event) -> (r: Response)
        ensures
            match scrolled(*event, old(self)@.offset, old(self)@.limit, old(self)@.page) {
                None => r == Response { handled: false, changed: false } && final(self)@ == old(self)@,
                Some(o) => {
                    &&& final(self)@.offset == o
                    &&& final(self)@.follow == (o == old(self)@.limit)
                    &&& final(self)@.limit == old(self)@.limit
                    &&& final(self)@.page == old(self)@.page
                    &&& r.handled == (o != old(self)@.offset)
                    &&& r.changed == (o != old(self)@.offset)
                },
            },
    {
        let old_offset = self.offset;
        let step: u16 = if self.page >= 1 { self.page } else { 1 };
        let next = match event {
            Event::Key(Key::Up, _) => self.offset.saturating_sub(1),
            Event::Mouse(mouse) => match mouse.kind {
                MouseKind::ScrollUp => self.offset.saturating_sub(1),
                MouseKind::ScrollDown => {
                    let n = self.offset.saturating_add(1);
                    if n <= self.limit { n } else { self.limit }
                },
                _ => {
                    return Response::ignore();
                },
            },
            Event::Key(Key::Down, _) => {
                let n = self.offset.saturating_add(1);
                if n <= self.limit { n } else { self.limit }
            },
            Event::Key(Key::PageUp, _) => self.offset.saturating_sub(step),
            Event::Key(Key::PageDown, _) => {
                let n = self.offset.saturating_add(step);
                if n <= self.limit { n } else { self.limit }
            },
            Event::Key(Key::Home, _) => 0,
            Event::Key(Key::End, _) => self.limit,
            _ => {
                return Response::ignore();
            },
        };
        self.offset = next;
        self.follow = next == self.limit;
        let moved = old_offset != next;
        Response { handled: moved, changed: moved }
    }
}

/// Scrolling keeps the offset within the content: from an offset at most
/// the limit, every scrolling event leaves one at most the limit.
pub proof fn scrolling_stays_within(event: Event, offset: u16, limit: u16, page: u16)
    requires
        offset <= limit,
    ensures
        scrolled(event, offset, limit, page) matches Some(o) ==> 0 <= o <= limit,
{
}

} // verus!
