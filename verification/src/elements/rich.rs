//! Styled text laid out by `TextLayout`.
use crate::canvas::Canvas;
use crate::element::Element;
use crate::layout::{cap16, layout_spec, paint_rows, widest, Span, SpanView, TextLayout, Wrap};
use vstd::prelude::*;

verus! {

/// Styled spans shown as one text, wrapped as `wrap` says.
pub struct RichText {
    pub spans: Vec<Span>,
    pub wrap: Wrap,
}

/// What rich text holds: its spans and how it wraps.
pub struct RichTextView {
    pub spans: Seq<SpanView>,
    pub wrap: Wrap,
}

impl View for RichText {
    type V = RichTextView;

    open spec fn view(&self) -> RichTextView {
        RichTextView { spans: self.spans@.map_values(|s: Span| s@), wrap: self.wrap }
    }
}

impl RichText {
    pub fn new(spans: Vec<Span>, wrap: Wrap) -> (t: Self)
        ensures
            t.spans@ == spans@,
            t.wrap == wrap,
    {
        RichText { spans, wrap }
    }
}

impl Element for RichText {
    /// The widest row and the rows, laid out to `width`.
    fn measure(&self, width: Option<u16>) -> (r: (u16, u16))
        ensures
            r.0 == cap16(widest(layout_spec(self@.spans, width, self.wrap))),
            r.1 == cap16(layout_spec(self@.spans, width, self.wrap).len() as int),
    {
        TextLayout::new(self.spans.as_slice(), width, self.wrap).size()
    }

    /// The rows laid out to the canvas's width, from the top.
    fn paint(&self, canvas: &mut Canvas<'_>)
        ensures
            final(canvas).frame() == paint_rows(
                old(canvas).frame(),
                old(canvas).origin_spec(),
                old(canvas).clip_spec(),
                layout_spec(self@.spans, Some(old(canvas).size_spec().0), self.wrap),
                0,
                old(canvas).size_spec().1 as int,
            ),
    {
        let layout = TextLayout::new(self.spans.as_slice(), Some(canvas.size().0), self.wrap);
        layout.paint(canvas);
    }
}

} // verus!
