//! Backend-independent input events and handler responses.
use vstd::prelude::*;

verus! {

/// Modifier keys held with a key or a mouse report.
#[derive(Clone, Copy, Debug, Default, PartialEq, Eq, Structural)]
pub struct Modifiers {
    pub ctrl: bool,
    pub alt: bool,
    pub shift: bool,
    /// Super, Command, or Meta. Terminals report it only with the kitty
    /// keyboard protocol.
    pub meta: bool,
}

/// No modifier held.
pub open spec fn no_modifiers() -> Modifiers {
    Modifiers { ctrl: false, alt: false, shift: false, meta: false }
}

/// Only Alt held.
pub open spec fn alt_only() -> Modifiers {
    Modifiers { ctrl: false, alt: true, shift: false, meta: false }
}

impl Modifiers {
    /// No modifier held.
    pub fn none() -> (m: Self)
        ensures
            m == no_modifiers(),
    {
        Modifiers { ctrl: false, alt: false, shift: false, meta: false }
    }
}

#[derive(Clone, Copy, Debug, PartialEq, Eq, Structural)]
pub enum Key {
    Char(char),
    Enter,
    Escape,
    Tab,
    Backspace,
    Delete,
    Left,
    Right,
    Up,
    Down,
    Home,
    End,
    PageUp,
    PageDown,
    Insert,
    Function(u8),
}

#[derive(Clone, Copy, Debug, PartialEq, Eq, Structural)]
pub enum Button {
    Left,
    Middle,
    Right,
}

/// `Drag` is motion with a button held; `Move` is motion with none.
#[derive(Clone, Copy, Debug, PartialEq, Eq, Structural)]
pub enum MouseKind {
    Down(Button),
    Up(Button),
    Drag(Button),
    Move,
    ScrollUp,
    ScrollDown,
    ScrollLeft,
    ScrollRight,
}

/// A mouse report in zero-based cells.
#[derive(Clone, Copy, Debug, PartialEq, Eq, Structural)]
pub struct Mouse {
    pub x: u16,
    pub y: u16,
    pub kind: MouseKind,
    pub modifiers: Modifiers,
}

impl Mouse {
    pub fn new(x: u16, y: u16, kind: MouseKind) -> (m: Self)
        ensures
            m == (Mouse { x, y, kind, modifiers: no_modifiers() }),
    {
        Mouse { x, y, kind, modifiers: Modifiers::none() }
    }
}

/// Input delivered to elements.
#[derive(Clone, Debug, PartialEq, Eq)]
pub enum Event {
    Key(Key, Modifiers),
    Paste(String),
    Mouse(Mouse),
    Focus,
    Blur,
    /// The terminal window gained (`true`) or lost focus.
    WindowFocus(bool),
    Resize(u16, u16),
}

/// What an event says, with pasted text as characters.
pub enum EventView {
    Key(Key, Modifiers),
    Paste(Seq<char>),
    Mouse(Mouse),
    Focus,
    Blur,
    WindowFocus(bool),
    Resize(u16, u16),
}

impl View for Event {
    type V = EventView;

    open spec fn view(&self) -> EventView {
        match self {
            Event::Key(k, m) => EventView::Key(*k, *m),
            Event::Paste(s) => EventView::Paste(s@),
            Event::Mouse(m) => EventView::Mouse(*m),
            Event::Focus => EventView::Focus,
            Event::Blur => EventView::Blur,
            Event::WindowFocus(f) => EventView::WindowFocus(*f),
            Event::Resize(w, h) => EventView::Resize(*w, *h),
        }
    }
}

/// What a list of events says.
pub open spec fn views(events: Seq<Event>) -> Seq<EventView> {
    events.map_values(|e: Event| e@)
}

/// Whether a character is uppercase, as `char::is_uppercase` answers.
pub uninterp spec fn uppercase(c: char) -> bool;

/// `char::is_uppercase`: the Unicode `Uppercase` property, which among
/// ASCII characters holds of `A` to `Z` alone.
#[verifier::external_body]
fn char_is_uppercase(c: char) -> (r: bool)
    ensures
        r == uppercase(c),
        (c as u32) < 128 ==> (r <==> ('A' <= c && c <= 'Z')),
{
    c.is_uppercase()
}

/// The modifiers a key event carries: Shift is dropped from an uppercase
/// character, whose case already says it.
pub open spec fn key_modifiers(key: Key, modifiers: Modifiers) -> Modifiers {
    match key {
        Key::Char(c) => if uppercase(c) {
            Modifiers { shift: false, ..modifiers }
        } else {
            modifiers
        },
        _ => modifiers,
    }
}

impl Event {
    /// A key event with the given modifiers; Shift is part of an uppercase
    /// character, not a modifier of it. This rule is the library's own: it
    /// makes `Char('A')` with Shift and without it the same event, so a key
    /// map binds an uppercase letter once.
    pub fn key(key: Key, modifiers: Modifiers) -> (e: Self)
        ensures
            e == Event::Key(key, key_modifiers(key, modifiers)),
    {
        let m = match key {
            Key::Char(c) => if char_is_uppercase(c) {
                Modifiers { shift: false, ..modifiers }
            } else {
                modifiers
            },
            _ => modifiers,
        };
        Event::Key(key, m)
    }
}

impl From<Key> for Event {
    fn from(key: Key) -> (e: Self) {
        Event::Key(key, Modifiers::none())
    }
}

impl vstd::std_specs::convert::FromSpecImpl<Key> for Event {
    open spec fn obeys_from_spec() -> bool {
        true
    }

    open spec fn from_spec(key: Key) -> Event {
        Event::Key(key, no_modifiers())
    }
}

/// A handler can consume an event without repainting, or repaint and let it
/// bubble.
#[derive(Clone, Copy, Debug, Default, PartialEq, Eq, Structural)]
pub struct Response {
    pub handled: bool,
    pub changed: bool,
}

impl Response {
    /// Not consumed: the event bubbles to the parent.
    pub fn ignore() -> (r: Self)
        ensures
            r == (Response { handled: false, changed: false }),
    {
        Response { handled: false, changed: false }
    }

    /// Consumed without a visible change.
    pub fn handled() -> (r: Self)
        ensures
            r == (Response { handled: true, changed: false }),
    {
        Response { handled: true, changed: false }
    }

    /// Consumed, and the element looks different.
    pub fn repaint() -> (r: Self)
        ensures
            r == (Response { handled: true, changed: true }),
    {
        Response { handled: true, changed: true }
    }
}

} // verus!
