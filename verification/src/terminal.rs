//! What ending a terminal session must take back, as plain bytes.
use crate::inline::{park_bytes, Park};
use crate::output::extend;
use crate::event::{key_modifiers, Event, Key, Modifiers, Mouse, MouseKind};
use crate::surface::{pop_title, progress, progress_spec, Progress};
use vstd::prelude::*;

verus! {

/// `ESC [ 23 ; 0 t`, which puts back the title saved on the terminal's
/// title stack.
pub open spec fn pop_title_bytes() -> Seq<u8> {
    seq![0x1bu8, 0x5b, 0x32, 0x33, 0x3b, 0x30, 0x74]
}

/// What the application showed outside the frame that ending the session
/// must take back: a title pushed over the user's, and taskbar progress.
#[derive(Clone, Copy, Debug, Default, PartialEq, Eq, Structural)]
pub struct Surface {
    pub title: bool,
    pub progress: bool,
    pub tmux: bool,
}

/// The bytes that take back what a surface shows: the progress cleared,
/// then the user's title put back.
pub open spec fn restore_bytes(s: Surface) -> Seq<u8> {
    (if s.progress {
        progress_spec(Progress::Clear, s.tmux)
    } else {
        Seq::empty()
    }) + if s.title {
        pop_title_bytes()
    } else {
        Seq::empty()
    }
}

impl Surface {
    /// Take back what the application showed outside the frame.
    pub fn restore(self, out: &mut Vec<u8>)
        ensures
            final(out)@ == old(out)@ + restore_bytes(self),
    {
        if self.progress {
            let clear = progress(Progress::Clear, self.tmux);
            extend(out, clear.as_slice());
        }
        let ghost mid = out@;
        if self.title {
            let pop = pop_title();
            extend(out, pop.as_slice());
        }
        assert(out@ =~= old(out)@ + restore_bytes(self));
    }
}

/// What to undo if the process ends without dropping the session: where
/// to park the cursor beneath an inline frame, so that what prints next
/// lands under the frame instead of over it, and what the surface shows.
#[derive(Clone, Copy, Debug, Default, PartialEq, Eq, Structural)]
pub struct Active {
    pub park: Park,
    pub surface: Surface,
}

/// The bytes that undo a session's output: the cursor parked first, then
/// the surface restored, so the user's title comes back beneath the frame.
pub open spec fn leave_bytes(a: Active) -> Seq<u8> {
    park_bytes(a.park) + restore_bytes(a.surface)
}

impl Active {
    /// Undo what the session showed, in the order that leaves the cursor
    /// beneath the frame and the user's title in place.
    pub fn leave(self, out: &mut Vec<u8>)
        ensures
            final(out)@ == old(out)@ + leave_bytes(self),
    {
        self.park.write(out);
        self.surface.restore(out);
        assert(out@ =~= old(out)@ + leave_bytes(self));
    }
}

/// A key as the terminal backend names it; `Other` stands for the keys the
/// library has no name for, such as media keys and lone modifiers.
#[derive(Clone, Copy, Debug, PartialEq, Eq, Structural)]
pub enum KeyCode {
    Char(char),
    Enter,
    Esc,
    Tab,
    BackTab,
    Backspace,
    Delete,
    Left,
    Right,
    Up,
    Down,
    Home,
    End,
    PageUp,
    PageDown,
    Insert,
    F(u8),
    Other,
}

/// The modifier flags the terminal backend reports.
#[derive(Clone, Copy, Debug, Default, PartialEq, Eq, Structural)]
pub struct KeyModifiers {
    pub shift: bool,
    pub control: bool,
    pub alt: bool,
    pub super_key: bool,
    pub hyper: bool,
    pub meta: bool,
}

/// Whether a key went down, repeats, or came up.
#[derive(Clone, Copy, Debug, PartialEq, Eq, Structural)]
pub enum KeyKind {
    Press,
    Repeat,
    Release,
}

/// Input as the terminal backend reports it, in plain values.
#[derive(Clone, Debug, PartialEq, Eq)]
pub enum Input {
    Key { code: KeyCode, modifiers: KeyModifiers, kind: KeyKind },
    Paste(String),
    Mouse { column: u16, row: u16, kind: MouseKind, modifiers: KeyModifiers },
    Resize(u16, u16),
    FocusGained,
    FocusLost,
}

/// The library's modifiers for the backend's flags: Super, Meta and Hyper
/// all count as meta.
pub open spec fn modifiers_of(m: KeyModifiers) -> Modifiers {
    Modifiers { ctrl: m.control, alt: m.alt, shift: m.shift, meta: m.super_key || m.meta || m.hyper }
}

/// The library's key for a backend key code, with the modifiers it adds:
/// a back-tab is Tab with Shift. Codes with no key give none.
pub open spec fn key_of(code: KeyCode, mods: Modifiers) -> Option<(Key, Modifiers)> {
    match code {
        KeyCode::Char(c) => Some((Key::Char(c), mods)),
        KeyCode::Enter => Some((Key::Enter, mods)),
        KeyCode::Esc => Some((Key::Escape, mods)),
        KeyCode::Tab => Some((Key::Tab, mods)),
        KeyCode::BackTab => Some((Key::Tab, Modifiers { shift: true, ..mods })),
        KeyCode::Backspace => Some((Key::Backspace, mods)),
        KeyCode::Delete => Some((Key::Delete, mods)),
        KeyCode::Left => Some((Key::Left, mods)),
        KeyCode::Right => Some((Key::Right, mods)),
        KeyCode::Up => Some((Key::Up, mods)),
        KeyCode::Down => Some((Key::Down, mods)),
        KeyCode::Home => Some((Key::Home, mods)),
        KeyCode::End => Some((Key::End, mods)),
        KeyCode::PageUp => Some((Key::PageUp, mods)),
        KeyCode::PageDown => Some((Key::PageDown, mods)),
        KeyCode::Insert => Some((Key::Insert, mods)),
        KeyCode::F(n) => Some((Key::Function(n), mods)),
        KeyCode::Other => None,
    }
}

/// The event a backend input is delivered as: key releases and unnamed
/// keys are dropped, and a key event takes its modifiers as `Event::key`
/// does.
pub open spec fn convert_spec(input: Input) -> Option<Event> {
    match input {
        Input::Key { code, modifiers, kind } => if kind == KeyKind::Release {
            None
        } else {
            match key_of(code, modifiers_of(modifiers)) {
                Some((key, mods)) => Some(Event::Key(key, key_modifiers(key, mods))),
                None => None,
            }
        },
        Input::Paste(s) => Some(Event::Paste(s)),
        Input::Mouse { column, row, kind, modifiers } => Some(
            Event::Mouse(Mouse { x: column, y: row, kind, modifiers: modifiers_of(modifiers) }),
        ),
        Input::Resize(w, h) => Some(Event::Resize(w, h)),
        Input::FocusGained => Some(Event::WindowFocus(true)),
        Input::FocusLost => Some(Event::WindowFocus(false)),
    }
}

fn modifiers(m: KeyModifiers) -> (r: Modifiers)
    ensures
        r == modifiers_of(m),
{
    Modifiers { ctrl: m.control, alt: m.alt, shift: m.shift, meta: m.super_key || m.meta || m.hyper }
}

/// Convert backend input into the events elements receive.
pub fn convert(input: Input) -> (r: Option<Event>)
    ensures
        r == convert_spec(input),
{
    match input {
        Input::Key { code, modifiers: m, kind } => {
            if kind == KeyKind::Release {
                return None;
            }
            let mut mods = modifiers(m);
            let key = match code {
                KeyCode::Char(c) => Key::Char(c),
                KeyCode::Enter => Key::Enter,
                KeyCode::Esc => Key::Escape,
                KeyCode::Tab => Key::Tab,
                KeyCode::BackTab => {
                    mods.shift = true;
                    Key::Tab
                },
                KeyCode::Backspace => Key::Backspace,
                KeyCode::Delete => Key::Delete,
                KeyCode::Left => Key::Left,
                KeyCode::Right => Key::Right,
                KeyCode::Up => Key::Up,
                KeyCode::Down => Key::Down,
                KeyCode::Home => Key::Home,
                KeyCode::End => Key::End,
                KeyCode::PageUp => Key::PageUp,
                KeyCode::PageDown => Key::PageDown,
                KeyCode::Insert => Key::Insert,
                KeyCode::F(n) => Key::Function(n),
                KeyCode::Other => {
                    return None;
                },
            };
            Some(Event::key(key, mods))
        },
        Input::Paste(s) => Some(Event::Paste(s)),
        Input::Mouse { column, row, kind, modifiers: m } => Some(
            Event::Mouse(Mouse { x: column, y: row, kind, modifiers: modifiers(m) }),
        ),
        Input::Resize(w, h) => Some(Event::Resize(w, h)),
        Input::FocusGained => Some(Event::WindowFocus(true)),
        Input::FocusLost => Some(Event::WindowFocus(false)),
    }
}

} // verus!
