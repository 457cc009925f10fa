//! Terminal user-interface building blocks: cell buffers, clipped drawing,
//! input decoding, and terminal output as plain bytes.
mod buffer;
mod canvas;
mod decoder;
pub mod diff;
mod editor;
mod element;
pub mod elements;
mod event;
mod geometry;
mod inline;
pub mod keymap;
pub mod markdown;
mod layout;
mod output;
mod pen;
pub mod pixels;
mod renderer;
pub mod query;
mod scan;
pub mod surface;
pub mod testing;
pub mod text;
pub mod terminal;
mod tree;
mod unicode;

pub use buffer::{Buffer, Cell, Color, CursorShape, Style};
pub use canvas::Canvas;
pub use decoder::{Decoder, PASTE_LIMIT};
pub use element::Element;
pub use event::{Button, Event, Key, Modifiers, Mouse, MouseKind, Response};
pub use geometry::Rect;
pub use inline::{crop, Inline, Park};
pub use layout::{Span, TextLayout, Wrap};
pub use pen::{Depth, Pen, Shadow};
pub use renderer::Renderer;
pub use terminal::{Active, Surface};
pub use tree::{Dispatch, Id};
