//! The contract implemented by built-in and application-defined elements.
use crate::canvas::Canvas;
use crate::event::{Event, Response};
use vstd::prelude::*;

verus! {

/// An element measures and paints in cells. It owns its state and releases
/// its resources when removed. Events bubble to parents unless consumed.
pub trait Element {
    /// Whether the element's own state is consistent, which painting and
    /// event handling rely on; always, unless the element says otherwise.
    open spec fn ready(&self) -> bool {
        true
    }

    /// The cells the element would take, given a width to fit; none,
    /// unless the element says otherwise.
    fn measure(&self, width: Option<u16>) -> (r: (u16, u16))
        requires
            self.ready(),
        default_ensures
            r == (0u16, 0u16),
    {
        (0, 0)
    }

    /// Paint through a canvas, which keeps the frame well formed and stays
    /// the same canvas.
    fn paint(&self, canvas: &mut Canvas<'_>)
        requires
            self.ready(),
            old(canvas).frame().wf(),
        ensures
            final(canvas).frame().wf(),
            final(canvas).origin_spec() == old(canvas).origin_spec(),
            final(canvas).clip_spec() == old(canvas).clip_spec(),
            final(canvas).size_spec() == old(canvas).size_spec(),
            final(canvas).focused_spec() == old(canvas).focused_spec(),
    {
    }

    /// Handle an event; unless the element says otherwise, it is left
    /// alone and bubbles to the parent.
    fn event(&mut self, event: &Event) -> (r: Response)
        requires
            old(self).ready(),
        ensures
            final(self).ready(),
        default_ensures
            r == (Response { handled: false, changed: false }),
    {
        Response::ignore()
    }

    /// Whether the element takes focus; not unless it says otherwise.
    fn focusable(&self) -> (r: bool)
        default_ensures
            !r,
    {
        false
    }

    /// Told the size given and the content's, return the scroll offset;
    /// none, unless the element scrolls.
    fn viewport(&mut self, size: (u16, u16), content: (u16, u16)) -> (r: (u16, u16))
        requires
            old(self).ready(),
        ensures
            final(self).ready(),
        default_ensures
            r == (0u16, 0u16),
    {
        (0, 0)
    }
}

} // verus!
