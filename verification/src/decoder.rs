//! Terminal input bytes decoded into portable events, for transports that
//! carry raw bytes instead of a local terminal.
use crate::event::{
    alt_only, key_modifiers, no_modifiers, views, Button, Event, EventView, Key, Modifiers, Mouse,
    MouseKind,
};
use crate::scan::{
    char_from_u32, char_is_control, digits_value, first_char, first_char_exec, first_code, first_code_exec,
    is_continuation, is_control, is_scalar, parse_number, parse_number_exec, split, split_ranges,
    utf8_status, utf8_status_exec, First, Utf8,
};
use vstd::prelude::*;

verus! {

/// The most paste text delivered as one event. A longer paste arrives as
/// several `Paste` events in order, so memory stays bounded whatever is
/// pasted.
pub const PASTE_LIMIT: usize = 65536;

/// No report a terminal sends is longer; anything that is gets dropped.
pub const SEQUENCE_LIMIT: usize = 64;

pub open spec fn esc() -> u8 {
    0x1b
}

/// Whether `s` begins with `p`.
pub open spec fn starts(s: Seq<u8>, p: Seq<u8>) -> bool {
    p.len() <= s.len() && s.take(p.len() as int) == p
}

/// Whether `s` ends with `p`.
pub open spec fn ends(s: Seq<u8>, p: Seq<u8>) -> bool {
    p.len() <= s.len() && s.skip(s.len() - p.len()) == p
}

/// `ESC [ 2 0 0 ~`, which opens a bracketed paste.
pub open spec fn paste_open() -> Seq<u8> {
    seq![0x1bu8, 0x5b, 0x32, 0x30, 0x30, 0x7e]
}

/// `ESC [ 2 0 1 ~`, which closes it.
pub open spec fn paste_close() -> Seq<u8> {
    seq![0x1bu8, 0x5b, 0x32, 0x30, 0x31, 0x7e]
}

pub open spec fn two_escapes() -> Seq<u8> {
    seq![0x1bu8, 0x1b]
}

/// The Escape key with no modifier.
pub open spec fn escape_key() -> EventView {
    EventView::Key(Key::Escape, no_modifiers())
}

/// What decoding leaves: the bytes kept for later, whether a paste is open,
/// and the events completed.
pub struct Decoded {
    pub pending: Seq<u8>,
    pub paste: bool,
    pub events: Seq<EventView>,
}

/// `std`'s `String::from_utf8_lossy`: the text of some bytes, with each
/// malformed part replaced by U+FFFD.
pub uninterp spec fn lossy_utf8(bytes: Seq<u8>) -> Seq<char>;

/// `String::from_utf8_lossy` from `std`. It decodes the bytes as UTF-8,
/// replacing each malformed part with U+FFFD; the contract names that
/// result and states what the documentation gives: well-formed input is
/// returned as it is.
#[verifier::external_body]
fn text_of_bytes(bytes: &[u8]) -> (s: String)
    ensures
        s@ == lossy_utf8(bytes@),
        vstd::utf8::valid_utf8(bytes@) ==> s@ == vstd::utf8::decode_utf8(bytes@),
{
    String::from_utf8_lossy(bytes).into_owned()
}

/// xterm's modifier parameter: one more than a bit mask. Kitty adds super,
/// hyper, and meta, which all report as `meta`.
pub open spec fn param_modifiers(parameter: u32) -> Modifiers {
    let mask: u32 = if parameter >= 1 {
        (parameter - 1) as u32
    } else {
        0
    };
    Modifiers {
        shift: mask & 1 != 0,
        alt: mask & 2 != 0,
        ctrl: mask & 4 != 0,
        meta: mask & 56 != 0,
    }
}

/// A `~` report: the xterm numbers for editing and function keys.
pub open spec fn tilde_key_spec(n: u32) -> Option<Key> {
    if n == 1 || n == 7 {
        Some(Key::Home)
    } else if n == 2 {
        Some(Key::Insert)
    } else if n == 3 {
        Some(Key::Delete)
    } else if n == 4 || n == 8 {
        Some(Key::End)
    } else if n == 5 {
        Some(Key::PageUp)
    } else if n == 6 {
        Some(Key::PageDown)
    } else if 11 <= n <= 15 {
        Some(Key::Function((n - 10) as u8))
    } else if 17 <= n <= 21 {
        Some(Key::Function((n - 11) as u8))
    } else if 23 <= n <= 24 {
        Some(Key::Function((n - 12) as u8))
    } else {
        None
    }
}

/// Kitty's private-use code points, which name keys that type no text.
pub open spec fn private_use(code: u32) -> bool {
    0xe000 <= code <= 0xf8ff
}

/// A kitty keyboard report: the key's code point, and the code point Shift
/// makes of it on the terminal's layout.
pub open spec fn kitty_key_spec(code: u32, shifted: Option<u32>, shift: bool) -> Option<Key> {
    if code == 9 {
        Some(Key::Tab)
    } else if code == 13 {
        Some(Key::Enter)
    } else if code == 27 {
        Some(Key::Escape)
    } else if code == 127 {
        Some(Key::Backspace)
    } else if 57399 <= code <= 57408 {
        Some(Key::Char(((48 + code - 57399) as u8) as char))
    } else if code == 57409 {
        Some(Key::Char('.'))
    } else if code == 57410 {
        Some(Key::Char('/'))
    } else if code == 57411 {
        Some(Key::Char('*'))
    } else if code == 57412 {
        Some(Key::Char('-'))
    } else if code == 57413 {
        Some(Key::Char('+'))
    } else if code == 57414 {
        Some(Key::Enter)
    } else if code == 57415 {
        Some(Key::Char('='))
    } else if code == 57417 {
        Some(Key::Left)
    } else if code == 57418 {
        Some(Key::Right)
    } else if code == 57419 {
        Some(Key::Up)
    } else if code == 57420 {
        Some(Key::Down)
    } else if code == 57421 {
        Some(Key::PageUp)
    } else if code == 57422 {
        Some(Key::PageDown)
    } else if code == 57423 {
        Some(Key::Home)
    } else if code == 57424 {
        Some(Key::End)
    } else if code == 57425 {
        Some(Key::Insert)
    } else if code == 57426 {
        Some(Key::Delete)
    } else if private_use(code) {
        None
    } else {
        let c = if shift {
            match shifted {
                Some(s) => s,
                None => code,
            }
        } else {
            code
        };
        if is_scalar(c) && !is_control(c as char) && !private_use(c) {
            Some(Key::Char(c as char))
        } else {
            None
        }
    }
}

/// The mouse button in the low bits of an SGR report.
pub open spec fn button_of(code: u16) -> Option<Button> {
    if code & 3 == 0 {
        Some(Button::Left)
    } else if code & 3 == 1 {
        Some(Button::Middle)
    } else if code & 3 == 2 {
        Some(Button::Right)
    } else {
        None
    }
}

/// An SGR mouse report's numbers, ending in `M` (press or motion) or `m`
/// (release).
pub open spec fn mouse_event_spec(code: u16, x: u16, y: u16, end: u8) -> Option<EventView> {
    let wheel = code & 64 != 0;
    let motion = code & 32 != 0;
    let button = button_of(code);
    let kind: Option<MouseKind> = if code & 128 != 0 {
        None
    } else if end == 0x4d && wheel {
        Some(
            if code & 3 == 0 {
                MouseKind::ScrollUp
            } else if code & 3 == 1 {
                MouseKind::ScrollDown
            } else if code & 3 == 2 {
                MouseKind::ScrollLeft
            } else {
                MouseKind::ScrollRight
            },
        )
    } else if end == 0x4d && motion {
        Some(
            match button {
                Some(b) => MouseKind::Drag(b),
                None => MouseKind::Move,
            },
        )
    } else if end == 0x4d {
        match button {
            Some(b) => Some(MouseKind::Down(b)),
            None => None,
        }
    } else if end == 0x6d && !wheel {
        match button {
            Some(b) => Some(MouseKind::Up(b)),
            None => None,
        }
    } else {
        None
    };
    match kind {
        Some(kind) => if x >= 1 && y >= 1 {
            Some(
                EventView::Mouse(
                    Mouse {
                        x: (x - 1) as u16,
                        y: (y - 1) as u16,
                        kind,
                        modifiers: Modifiers {
                            shift: code & 4 != 0,
                            alt: code & 8 != 0,
                            ctrl: code & 16 != 0,
                            meta: false,
                        },
                    },
                ),
            )
        } else {
            None
        },
        None => None,
    }
}

/// An SGR mouse report's body: `button;column;row`.
pub open spec fn mouse_spec(body: Seq<u8>, end: u8) -> Option<EventView> {
    let fs = split(body, 0x3b);
    if fs.len() != 3 {
        None
    } else {
        match (
            parse_number(fs[0], 65535),
            parse_number(fs[1], 65535),
            parse_number(fs[2], 65535),
        ) {
            (Some(code), Some(x), Some(y)) => mouse_event_spec(code as u16, x as u16, y as u16, end),
            _ => None,
        }
    }
}

/// Part `p` of field `f` of a report's parameters, fields split on `;` and
/// parts on `:`, as a number; absent or empty parts are `None`.
pub open spec fn field_value(body: Seq<u8>, f: int, p: int) -> Option<u32> {
    let fs = split(body, 0x3b);
    if 0 <= f < fs.len() {
        let ps = split(fs[f], 0x3a);
        if 0 <= p < ps.len() {
            match parse_number(ps[p], 0xffff_ffff) {
                Some(v) => Some(v as u32),
                None => None,
            }
        } else {
            None
        }
    } else {
        None
    }
}

/// One complete CSI or SS3 report (`ESC [` or `ESC O`, parameters, and a
/// final byte); unsupported reports are ignored.
pub open spec fn sequence_spec(bytes: Seq<u8>) -> Option<EventView>
    recommends
        bytes.len() >= 3,
{
    let end = bytes.last();
    let body = bytes.subrange(2, bytes.len() - 1);
    if utf8_status(body) != Utf8::Valid {
        None
    } else if body.len() > 0 && body[0] == 0x3c {
        mouse_spec(body.skip(1), end)
    } else if body == seq![0x5bu8] {
        if 0x41 <= end <= 0x45 {
            Some(EventView::Key(Key::Function((end - 0x41 + 1) as u8), no_modifiers()))
        } else {
            None
        }
    } else if field_value(body, 1, 1) == Some(3u32) {
        None
    } else {
        let m = param_modifiers(
            match field_value(body, 1, 0) {
                Some(v) => v,
                None => 1,
            },
        );
        if end == 0x41 {
            Some(EventView::Key(Key::Up, m))
        } else if end == 0x42 {
            Some(EventView::Key(Key::Down, m))
        } else if end == 0x43 {
            Some(EventView::Key(Key::Right, m))
        } else if end == 0x44 {
            Some(EventView::Key(Key::Left, m))
        } else if end == 0x48 {
            Some(EventView::Key(Key::Home, m))
        } else if end == 0x46 {
            Some(EventView::Key(Key::End, m))
        } else if 0x50 <= end <= 0x53 {
            Some(EventView::Key(Key::Function((end - 0x50 + 1) as u8), m))
        } else if end == 0x5a {
            Some(EventView::Key(Key::Tab, Modifiers { shift: true, ..m }))
        } else if end == 0x49 {
            Some(EventView::WindowFocus(true))
        } else if end == 0x4f {
            Some(EventView::WindowFocus(false))
        } else if end == 0x75 {
            match field_value(body, 0, 0) {
                Some(code) => match kitty_key_spec(code, field_value(body, 0, 1), m.shift) {
                    Some(k) => Some(EventView::Key(k, key_modifiers(k, m))),
                    None => None,
                },
                None => None,
            }
        } else if end == 0x7e {
            match field_value(body, 0, 0) {
                Some(n) => match tilde_key_spec(n) {
                    Some(k) => Some(EventView::Key(k, m)),
                    None => None,
                },
                None => None,
            }
        } else {
            None
        }
    }
}

/// The symbol Ctrl types with the C0 controls from 0x1c to 0x1f.
pub open spec fn ctrl_symbol(n: u32) -> char {
    if n == 0x1c {
        '\\'
    } else if n == 0x1d {
        ']'
    } else if n == 0x1e {
        '^'
    } else {
        '_'
    }
}

/// The key a typed character is, with Alt when an Escape came first;
/// `None` for a control character no key sends.
pub open spec fn key_of(c: char, alt: bool) -> Option<(Key, Modifiers)> {
    let n = c as u32;
    let m = Modifiers { ctrl: false, alt, shift: false, meta: false };
    let mc = Modifiers { ctrl: true, alt, shift: false, meta: false };
    if n == 13 || n == 10 {
        Some((Key::Enter, m))
    } else if n == 9 {
        Some((Key::Tab, m))
    } else if n == 0x7f || n == 8 {
        Some((Key::Backspace, m))
    } else if n == 0x1b {
        Some((Key::Escape, m))
    } else if 1 <= n <= 0x1a {
        Some((Key::Char(((n + 96) as u8) as char), mc))
    } else if n == 0 {
        Some((Key::Char(' '), mc))
    } else if 0x1c <= n <= 0x1f {
        Some((Key::Char(ctrl_symbol(n)), mc))
    } else if is_control(c) {
        None
    } else {
        Some((Key::Char(c), m))
    }
}

/// Where a paste longer than the limit is cut: five bytes before the end,
/// so a terminator split across the cut is still recognized, moved back at
/// most three bytes to the start of a character.
pub open spec fn cut_back(p: Seq<u8>, cut: int, floor: int) -> int
    decreases cut - floor,
{
    if cut > floor && 0 <= cut < p.len() && is_continuation(p[cut]) {
        cut_back(p, cut - 1, floor)
    } else {
        cut
    }
}

pub open spec fn paste_cut(p: Seq<u8>) -> int {
    cut_back(p, p.len() - 5, p.len() - 8)
}

/// A byte of text inside a paste.
pub open spec fn paste_step(p: Seq<u8>) -> Decoded {
    if ends(p, paste_close()) {
        Decoded {
            pending: Seq::empty(),
            paste: false,
            events: seq![EventView::Paste(lossy_utf8(p.take(p.len() - 6)))],
        }
    } else if p.len() > PASTE_LIMIT {
        let cut = paste_cut(p);
        Decoded {
            pending: p.skip(cut),
            paste: true,
            events: seq![EventView::Paste(lossy_utf8(p.take(cut)))],
        }
    } else {
        Decoded { pending: p, paste: true, events: Seq::empty() }
    }
}

/// Whether the bytes are a paste opening, possibly after an Escape.
pub open spec fn paste_begins(p: Seq<u8>) -> bool {
    let escaped = starts(p, two_escapes());
    p.skip(if escaped {
        1
    } else {
        0
    }) == paste_open()
}

/// Whether the bytes, after an optional Escape, begin a CSI or SS3 report.
pub open spec fn in_report(p: Seq<u8>) -> bool {
    let r = p.skip(
        if starts(p, two_escapes()) {
            1
        } else {
            0
        },
    );
    starts(r, seq![0x1bu8, 0x5b]) || starts(r, seq![0x1bu8, 0x4f])
}

/// A byte of a report: dropped when too long, or the report completed by a
/// final byte, with an Escape before it adding Alt.
pub open spec fn report_step(p: Seq<u8>, byte: u8) -> Decoded {
    let alt = starts(p, two_escapes());
    let r = p.skip(
        if alt {
            1
        } else {
            0
        },
    );
    let bracket = r == seq![0x1bu8, 0x5b, 0x5b];
    if p.len() > SEQUENCE_LIMIT {
        Decoded { pending: Seq::empty(), paste: false, events: Seq::empty() }
    } else if r.len() > 2 && 0x40 <= byte <= 0x7e && !bracket {
        Decoded {
            pending: Seq::empty(),
            paste: false,
            events: match sequence_spec(r) {
                Some(EventView::Key(k, m)) => seq![
                    EventView::Key(k, Modifiers { alt: m.alt || alt, ..m }),
                ],
                Some(e) => seq![e],
                None => Seq::empty(),
            },
        }
    } else {
        Decoded { pending: p, paste: false, events: Seq::empty() }
    }
}

/// A key typed as text, possibly after an Escape that means Alt. Nothing
/// happens until the character is complete.
pub open spec fn key_step(p: Seq<u8>) -> Decoded {
    if p == two_escapes() {
        Decoded { pending: p, paste: false, events: Seq::empty() }
    } else {
        let lead = starts(p, two_escapes());
        let q = if lead {
            p.drop_first()
        } else {
            p
        };
        let pre = if lead {
            seq![escape_key()]
        } else {
            Seq::empty()
        };
        let alt = q.len() > 0 && q[0] == esc();
        let t = q.skip(
            if alt {
                1
            } else {
                0
            },
        );
        match utf8_status(t) {
            Utf8::Incomplete => Decoded { pending: q, paste: false, events: pre },
            Utf8::Invalid => Decoded { pending: Seq::empty(), paste: false, events: pre },
            Utf8::Valid => if t.len() == 0 {
                Decoded { pending: q, paste: false, events: pre }
            } else {
                match key_of(first_code(t) as char, alt) {
                    Some((k, m)) => Decoded {
                        pending: Seq::empty(),
                        paste: false,
                        events: pre.push(EventView::Key(k, m)),
                    },
                    None => Decoded { pending: Seq::empty(), paste: false, events: pre },
                }
            },
        }
    }
}

/// Decode one byte: text being pasted, the start of a paste, an Escape that
/// begins new input, part of a report, or part of a key, in that order.
#[verifier::opaque]
pub open spec fn step(pending: Seq<u8>, paste: bool, byte: u8) -> Decoded {
    let p = pending.push(byte);
    if paste {
        paste_step(p)
    } else if paste_begins(p) {
        Decoded {
            pending: Seq::empty(),
            paste: true,
            events: if starts(p, two_escapes()) {
                seq![escape_key()]
            } else {
                Seq::empty()
            },
        }
    } else if byte == esc() && p.len() > 1 {
        let before = p.drop_last();
        Decoded {
            pending: if before == seq![esc()] {
                p
            } else {
                seq![esc()]
            },
            paste: false,
            events: if before == two_escapes() {
                seq![EventView::Key(Key::Escape, alt_only())]
            } else {
                Seq::empty()
            },
        }
    } else if in_report(p) {
        report_step(p, byte)
    } else {
        key_step(p)
    }
}

/// Decode a run of bytes, one at a time.
pub open spec fn feed(pending: Seq<u8>, paste: bool, bytes: Seq<u8>) -> Decoded
    decreases bytes.len(),
{
    if bytes.len() == 0 {
        Decoded { pending, paste, events: Seq::empty() }
    } else {
        let before = feed(pending, paste, bytes.drop_last());
        let last = step(before.pending, before.paste, bytes.last());
        Decoded {
            pending: last.pending,
            paste: last.paste,
            events: before.events + last.events,
        }
    }
}

/// Input may arrive split anywhere: decoding two pieces one after the other
/// gives the events and the state of decoding them together.
pub proof fn feed_splits_anywhere(pending: Seq<u8>, paste: bool, a: Seq<u8>, b: Seq<u8>)
    ensures
        ({
            let first = feed(pending, paste, a);
            let second = feed(first.pending, first.paste, b);
            let whole = feed(pending, paste, a + b);
            whole.pending == second.pending && whole.paste == second.paste && whole.events
                == first.events + second.events
        }),
    decreases b.len(),
{
    if b.len() == 0 {
        assert(a + b =~= a);
    } else {
        feed_splits_anywhere(pending, paste, a, b.drop_last());
        assert((a + b).drop_last() =~= a + b.drop_last());
        assert((a + b).last() == b.last());
        let first = feed(pending, paste, a);
        let mid = feed(first.pending, first.paste, b.drop_last());
        let whole_mid = feed(pending, paste, a + b.drop_last());
        let s = step(mid.pending, mid.paste, b.last());
        assert(feed(pending, paste, a + b).events =~= whole_mid.events + s.events);
        assert(first.events + (mid.events + s.events) =~= (first.events + mid.events) + s.events);
    }
}

/// Whether the bytes so far are a whole key on their own and also the start
/// of a longer report: Escape, Alt with `[` or `O`, or any of those after
/// another Escape.
pub open spec fn escape_pending_spec(pending: Seq<u8>, paste: bool) -> bool {
    !paste && (pending == seq![0x1bu8] || pending == seq![0x1bu8, 0x5b] || pending == seq![
        0x1bu8,
        0x4f,
    ] || pending == seq![0x1bu8, 0x1b] || pending == seq![0x1bu8, 0x1b, 0x5b] || pending
        == seq![0x1bu8, 0x1b, 0x4f])
}

/// The events waiting bytes are on their own: two Escapes are Alt+Escape,
/// and an Escape before Alt with `[` or `O` is a separate key.
pub open spec fn flush_spec(pending: Seq<u8>, paste: bool) -> Seq<EventView> {
    if !escape_pending_spec(pending, paste) {
        Seq::empty()
    } else if pending.len() == 1 {
        seq![escape_key()]
    } else if pending.len() == 2 && pending[1] == esc() {
        seq![EventView::Key(Key::Escape, alt_only())]
    } else if pending.len() == 2 {
        seq![EventView::Key(Key::Char(pending[1] as char), alt_only())]
    } else {
        seq![escape_key(), EventView::Key(Key::Char(pending.last() as char), alt_only())]
    }
}

/// What an optional event says.
pub open spec fn opt_view(e: Option<Event>) -> Option<EventView> {
    match e {
        Some(e) => Some(e@),
        None => None,
    }
}

fn modifiers(parameter: u32) -> (m: Modifiers)
    ensures
        m == param_modifiers(parameter),
{
    let mask = parameter.saturating_sub(1);
    Modifiers { shift: mask & 1 != 0, alt: mask & 2 != 0, ctrl: mask & 4 != 0, meta: mask & 56 != 0 }
}

fn tilde_key(n: u32) -> (k: Option<Key>)
    ensures
        k == tilde_key_spec(n),
{
    if n == 1 || n == 7 {
        Some(Key::Home)
    } else if n == 2 {
        Some(Key::Insert)
    } else if n == 3 {
        Some(Key::Delete)
    } else if n == 4 || n == 8 {
        Some(Key::End)
    } else if n == 5 {
        Some(Key::PageUp)
    } else if n == 6 {
        Some(Key::PageDown)
    } else if 11 <= n && n <= 15 {
        Some(Key::Function((n - 10) as u8))
    } else if 17 <= n && n <= 21 {
        Some(Key::Function((n - 11) as u8))
    } else if 23 <= n && n <= 24 {
        Some(Key::Function((n - 12) as u8))
    } else {
        None
    }
}

fn kitty_key(code: u32, shifted: Option<u32>, shift: bool) -> (k: Option<Key>)
    ensures
        k == kitty_key_spec(code, shifted, shift),
{
    if code == 9 {
        Some(Key::Tab)
    } else if code == 13 {
        Some(Key::Enter)
    } else if code == 27 {
        Some(Key::Escape)
    } else if code == 127 {
        Some(Key::Backspace)
    } else if 57399 <= code && code <= 57408 {
        Some(Key::Char((48 + (code - 57399) as u8) as char))
    } else if code == 57409 {
        Some(Key::Char('.'))
    } else if code == 57410 {
        Some(Key::Char('/'))
    } else if code == 57411 {
        Some(Key::Char('*'))
    } else if code == 57412 {
        Some(Key::Char('-'))
    } else if code == 57413 {
        Some(Key::Char('+'))
    } else if code == 57414 {
        Some(Key::Enter)
    } else if code == 57415 {
        Some(Key::Char('='))
    } else if code == 57417 {
        Some(Key::Left)
    } else if code == 57418 {
        Some(Key::Right)
    } else if code == 57419 {
        Some(Key::Up)
    } else if code == 57420 {
        Some(Key::Down)
    } else if code == 57421 {
        Some(Key::PageUp)
    } else if code == 57422 {
        Some(Key::PageDown)
    } else if code == 57423 {
        Some(Key::Home)
    } else if code == 57424 {
        Some(Key::End)
    } else if code == 57425 {
        Some(Key::Insert)
    } else if code == 57426 {
        Some(Key::Delete)
    } else if 0xe000 <= code && code <= 0xf8ff {
        None
    } else {
        let c = if shift {
            match shifted {
                Some(s) => s,
                None => code,
            }
        } else {
            code
        };
        match char_from_u32(c) {
            Some(ch) => {
                proof {
                    vstd::utf8::char_u32_cast(ch, c);
                }
                if !char_is_control(ch) && !(0xe000 <= c && c <= 0xf8ff) {
                    Some(Key::Char(ch))
                } else {
                    None
                }
            },
            None => None,
        }
    }
}

fn button_exec(code: u16) -> (b: Option<Button>)
    ensures
        b == button_of(code),
{
    if code & 3 == 0 {
        Some(Button::Left)
    } else if code & 3 == 1 {
        Some(Button::Middle)
    } else if code & 3 == 2 {
        Some(Button::Right)
    } else {
        None
    }
}

fn mouse_event(code: u16, x: u16, y: u16, end: u8) -> (e: Option<Event>)
    ensures
        opt_view(e) == mouse_event_spec(code, x, y, end),
{
    let wheel = code & 64 != 0;
    let motion = code & 32 != 0;
    let button = button_exec(code);
    let kind: Option<MouseKind> = if code & 128 != 0 {
        None
    } else if end == 0x4d && wheel {
        Some(
            if code & 3 == 0 {
                MouseKind::ScrollUp
            } else if code & 3 == 1 {
                MouseKind::ScrollDown
            } else if code & 3 == 2 {
                MouseKind::ScrollLeft
            } else {
                MouseKind::ScrollRight
            },
        )
    } else if end == 0x4d && motion {
        Some(
            match button {
                Some(b) => MouseKind::Drag(b),
                None => MouseKind::Move,
            },
        )
    } else if end == 0x4d {
        match button {
            Some(b) => Some(MouseKind::Down(b)),
            None => None,
        }
    } else if end == 0x6d && !wheel {
        match button {
            Some(b) => Some(MouseKind::Up(b)),
            None => None,
        }
    } else {
        None
    };
    match kind {
        Some(kind) => if x >= 1 && y >= 1 {
            Some(
                Event::Mouse(
                    Mouse {
                        x: x - 1,
                        y: y - 1,
                        kind,
                        modifiers: Modifiers {
                            shift: code & 4 != 0,
                            alt: code & 8 != 0,
                            ctrl: code & 16 != 0,
                            meta: false,
                        },
                    },
                ),
            )
        } else {
            None
        },
        None => None,
    }
}

/// An SGR mouse report's body `bytes[lo..hi]`: `button;column;row`.
fn mouse(bytes: &[u8], lo: usize, hi: usize, end: u8) -> (e: Option<Event>)
    requires
        lo <= hi <= bytes@.len(),
    ensures
        opt_view(e) == mouse_spec(bytes@.subrange(lo as int, hi as int), end),
{
    let fields = split_ranges(bytes, lo, hi, 0x3b);
    if fields.len() != 3 {
        return None;
    }
    let code = parse_number_exec(bytes, fields[0].0, fields[0].1, 65535);
    let x = parse_number_exec(bytes, fields[1].0, fields[1].1, 65535);
    let y = parse_number_exec(bytes, fields[2].0, fields[2].1, 65535);
    match (code, x, y) {
        (Some(code), Some(x), Some(y)) => mouse_event(code as u16, x as u16, y as u16, end),
        _ => None,
    }
}

/// Part `p` of field `f` of the parameters in `bytes[lo..hi]`.
fn field_value_exec(bytes: &[u8], lo: usize, hi: usize, f: usize, p: usize) -> (v: Option<u32>)
    requires
        lo <= hi <= bytes@.len(),
    ensures
        v == field_value(bytes@.subrange(lo as int, hi as int), f as int, p as int),
{
    let fields = split_ranges(bytes, lo, hi, 0x3b);
    if f >= fields.len() {
        return None;
    }
    let parts = split_ranges(bytes, fields[f].0, fields[f].1, 0x3a);
    if p >= parts.len() {
        return None;
    }
    parse_number_exec(bytes, parts[p].0, parts[p].1, 0xffff_ffff)
}

/// One complete report, `bytes[lo..hi]`.
fn sequence(bytes: &[u8], lo: usize, hi: usize) -> (e: Option<Event>)
    requires
        lo + 3 <= hi <= bytes@.len(),
    ensures
        opt_view(e) == sequence_spec(bytes@.subrange(lo as int, hi as int)),
{
    let ghost r = bytes@.subrange(lo as int, hi as int);
    let end = bytes[hi - 1];
    let blo = lo + 2;
    let bhi = hi - 1;
    let ghost body = bytes@.subrange(blo as int, bhi as int);
    assert(body =~= r.subrange(2, r.len() - 1));
    if utf8_status_exec(bytes, blo, bhi) != Utf8::Valid {
        return None;
    }
    if blo < bhi && bytes[blo] == 0x3c {
        assert(bytes@.subrange(blo + 1, bhi as int) =~= body.skip(1));
        return mouse(bytes, blo + 1, bhi, end);
    }
    if bhi - blo == 1 && bytes[blo] == 0x5b {
        assert(body =~= seq![0x5bu8]);
        if 0x41 <= end && end <= 0x45 {
            return Some(Event::Key(Key::Function(end - 0x41 + 1), Modifiers::none()));
        }
        return None;
    }
    assert(body != seq![0x5bu8]);
    if field_value_exec(bytes, blo, bhi, 1, 1) == Some(3u32) {
        return None;
    }
    let parameter = match field_value_exec(bytes, blo, bhi, 1, 0) {
        Some(v) => v,
        None => 1,
    };
    let m = modifiers(parameter);
    if end == 0x41 {
        Some(Event::Key(Key::Up, m))
    } else if end == 0x42 {
        Some(Event::Key(Key::Down, m))
    } else if end == 0x43 {
        Some(Event::Key(Key::Right, m))
    } else if end == 0x44 {
        Some(Event::Key(Key::Left, m))
    } else if end == 0x48 {
        Some(Event::Key(Key::Home, m))
    } else if end == 0x46 {
        Some(Event::Key(Key::End, m))
    } else if 0x50 <= end && end <= 0x53 {
        Some(Event::Key(Key::Function(end - 0x50 + 1), m))
    } else if end == 0x5a {
        Some(Event::Key(Key::Tab, Modifiers { shift: true, ..m }))
    } else if end == 0x49 {
        Some(Event::WindowFocus(true))
    } else if end == 0x4f {
        Some(Event::WindowFocus(false))
    } else if end == 0x75 {
        match field_value_exec(bytes, blo, bhi, 0, 0) {
            Some(code) => {
                let shifted = field_value_exec(bytes, blo, bhi, 0, 1);
                match kitty_key(code, shifted, m.shift) {
                    Some(k) => Some(Event::key(k, m)),
                    None => None,
                }
            },
            None => None,
        }
    } else if end == 0x7e {
        match field_value_exec(bytes, blo, bhi, 0, 0) {
            Some(n) => match tilde_key(n) {
                Some(k) => Some(Event::Key(k, m)),
                None => None,
            },
            None => None,
        }
    } else {
        None
    }
}

/// The key a typed character is.
fn key_of_exec(c: char, alt: bool) -> (r: Option<(Key, Modifiers)>)
    ensures
        r == key_of(c, alt),
{
    let n = c as u32;
    let m = Modifiers { ctrl: false, alt, shift: false, meta: false };
    let mc = Modifiers { ctrl: true, alt, shift: false, meta: false };
    if n == 13 || n == 10 {
        Some((Key::Enter, m))
    } else if n == 9 {
        Some((Key::Tab, m))
    } else if n == 0x7f || n == 8 {
        Some((Key::Backspace, m))
    } else if n == 0x1b {
        Some((Key::Escape, m))
    } else if 1 <= n && n <= 0x1a {
        Some((Key::Char(((n + 96) as u8) as char), mc))
    } else if n == 0 {
        Some((Key::Char(' '), mc))
    } else if 0x1c <= n && n <= 0x1f {
        let symbol = if n == 0x1c {
            '\\'
        } else if n == 0x1d {
            ']'
        } else if n == 0x1e {
            '^'
        } else {
            '_'
        };
        Some((Key::Char(symbol), mc))
    } else if char_is_control(c) {
        None
    } else {
        Some((Key::Char(c), m))
    }
}

/// Whether `p` begins with two Escapes.
fn two_escapes_at(p: &Vec<u8>) -> (r: bool)
    ensures
        r == starts(p@, two_escapes()),
{
    let r = p.len() >= 2 && p[0] == 0x1b && p[1] == 0x1b;
    proof {
        if p@.len() >= 2 {
            if r {
                assert(p@.take(2) =~= two_escapes());
            } else {
                assert(p@.take(2)[0] == p@[0] && p@.take(2)[1] == p@[1]);
            }
        }
    }
    r
}

/// Whether `p[off..]` is exactly the six bytes of a paste opening or, with
/// `close`, of a paste closing.
fn paste_marker_at(p: &Vec<u8>, off: usize, close: bool) -> (r: bool)
    requires
        off <= p@.len(),
    ensures
        r == (p@.skip(off as int) == (if close {
            paste_close()
        } else {
            paste_open()
        })),
{
    let want = if close {
        0x31u8
    } else {
        0x30u8
    };
    let ghost marker = if close {
        paste_close()
    } else {
        paste_open()
    };
    if p.len() - off != 6 {
        assert(p@.skip(off as int).len() != marker.len());
        return false;
    }
    let r = p[off] == 0x1b && p[off + 1] == 0x5b && p[off + 2] == 0x32 && p[off + 3] == 0x30
        && p[off + 4] == want && p[off + 5] == 0x7e;
    proof {
        let t = p@.skip(off as int);
        if r {
            assert(t =~= marker);
        } else {
            assert(t[0] == p@[off as int] && t[1] == p@[off + 1] && t[2] == p@[off + 2] && t[3]
                == p@[off + 3] && t[4] == p@[off + 4] && t[5] == p@[off + 5]);
            assert(t != marker);
        }
    }
    r
}

/// Decode xterm and kitty key reports, SGR mouse reports, focus changes, and
/// bracketed paste. Input may arrive split anywhere; only an incomplete
/// sequence is retained between calls. Malformed input is dropped rather
/// than reported: a peer can send anything, and none of it should end a
/// session.
pub struct Decoder {
    pending: Vec<u8>,
    paste: bool,
}

impl View for Decoder {
    type V = (Seq<u8>, bool);

    /// The bytes kept for later, and whether a paste is open.
    closed spec fn view(&self) -> (Seq<u8>, bool) {
        (self.pending@, self.paste)
    }
}

impl Default for Decoder {
    fn default() -> (d: Self)
        ensures
            d@ == (Seq::<u8>::empty(), false),
    {
        Decoder { pending: Vec::new(), paste: false }
    }
}

pub proof fn views_push(es: Seq<Event>, e: Event)
    ensures
        views(es.push(e)) == views(es).push(e@),
{
    assert(views(es.push(e)) =~= views(es).push(e@));
}

impl Decoder {
    /// The input so far is a whole key on its own and also the start of a
    /// longer report: Escape, Alt with `[` or `O`, or any of those after
    /// another Escape, which some terminals send for Alt with a report.
    /// Callers wait briefly for more bytes, then call `flush_escape`.
    pub fn escape_pending(&self) -> (r: bool)
        ensures
            r == escape_pending_spec(self@.0, self@.1),
    {
        let p = &self.pending;
        let n = p.len();
        let r = !self.paste && n >= 1 && n <= 3 && p[0] == 0x1b && (n == 1 || (n == 2 && (p[1]
            == 0x5b || p[1] == 0x4f || p[1] == 0x1b)) || (n == 3 && p[1] == 0x1b && (p[2] == 0x5b
            || p[2] == 0x4f)));
        proof {
            let s = p@;
            if r {
                if n == 1 {
                    assert(s =~= seq![0x1bu8]);
                } else if n == 2 {
                    if s[1] == 0x5b {
                        assert(s =~= seq![0x1bu8, 0x5b]);
                    } else if s[1] == 0x4f {
                        assert(s =~= seq![0x1bu8, 0x4f]);
                    } else {
                        assert(s =~= seq![0x1bu8, 0x1b]);
                    }
                } else if s[2] == 0x5b {
                    assert(s =~= seq![0x1bu8, 0x1b, 0x5b]);
                } else {
                    assert(s =~= seq![0x1bu8, 0x1b, 0x4f]);
                }
            } else if !self.paste {
                assert(s != seq![0x1bu8]) by {
                    if s.len() == 1 {
                        assert(s[0] != seq![0x1bu8][0]);
                    }
                }
                assert(s != seq![0x1bu8, 0x5b]) by {
                    if s.len() == 2 {
                        assert(s[0] != 0x1b || s[1] != 0x5b);
                    }
                }
                assert(s != seq![0x1bu8, 0x4f]) by {
                    if s.len() == 2 {
                        assert(s[0] != 0x1b || s[1] != 0x4f);
                    }
                }
                assert(s != seq![0x1bu8, 0x1b]) by {
                    if s.len() == 2 {
                        assert(s[0] != 0x1b || s[1] != 0x1b);
                    }
                }
                assert(s != seq![0x1bu8, 0x1b, 0x5b]) by {
                    if s.len() == 3 {
                        assert(s[0] != 0x1b || s[1] != 0x1b || s[2] != 0x5b);
                    }
                }
                assert(s != seq![0x1bu8, 0x1b, 0x4f]) by {
                    if s.len() == 3 {
                        assert(s[0] != 0x1b || s[1] != 0x1b || s[2] != 0x4f);
                    }
                }
            }
        }
        r
    }

    /// Resolve the waiting bytes as the keys they are on their own: two
    /// Escapes are Alt+Escape, and an Escape before Alt with `[` or `O` is a
    /// separate key. Nothing happens unless `escape_pending`.
    pub fn flush_escape(&mut self) -> (events: Vec<Event>)
        ensures
            views(events@) == flush_spec(old(self)@.0, old(self)@.1),
            final(self)@ == (if escape_pending_spec(old(self)@.0, old(self)@.1) {
                (Seq::<u8>::empty(), old(self)@.1)
            } else {
                old(self)@
            }),
    {
        if !self.escape_pending() {
            let events: Vec<Event> = Vec::new();
            assert(views(events@) =~= Seq::empty());
            return events;
        }
        let n = self.pending.len();
        let alt = Modifiers { ctrl: false, alt: true, shift: false, meta: false };
        let events = if n == 1 {
            vec![Event::Key(Key::Escape, Modifiers::none())]
        } else if n == 2 && self.pending[1] == 0x1b {
            vec![Event::Key(Key::Escape, alt)]
        } else if n == 2 {
            vec![Event::Key(Key::Char(self.pending[1] as char), alt)]
        } else {
            vec![
                Event::Key(Key::Escape, Modifiers::none()),
                Event::Key(Key::Char(self.pending[n - 1] as char), alt),
            ]
        };
        assert(views(events@) =~= flush_spec(old(self)@.0, old(self)@.1));
        self.pending.clear();
        events
    }

    /// Decode the events these bytes complete. A byte is text being pasted,
    /// the start of a paste, an Escape that begins new input, part of a
    /// report, or part of a key, in that order.
    pub fn push(&mut self, bytes: &[u8]) -> (events: Vec<Event>)
        ensures
            ({
                let d = feed(old(self)@.0, old(self)@.1, bytes@);
                final(self)@ == (d.pending, d.paste) && views(events@) == d.events
            }),
    {
        let ghost start = self@;
        let mut events: Vec<Event> = Vec::new();
        let mut i: usize = 0;
        assert(bytes@.take(0) =~= Seq::<u8>::empty());
        assert(views(events@) =~= Seq::empty());
        while i < bytes.len()
            invariant
                i <= bytes@.len(),
                ({
                    let d = feed(start.0, start.1, bytes@.take(i as int));
                    self@ == (d.pending, d.paste) && views(events@) == d.events
                }),
            decreases bytes@.len() - i,
        {
            self.step(bytes[i], &mut events);
            proof {
                assert(bytes@.take(i + 1).drop_last() =~= bytes@.take(i as int));
            }
            i = i + 1;
        }
        assert(bytes@.take(bytes@.len() as int) =~= bytes@);
        events
    }

    /// Decode one byte.
    fn step(&mut self, byte: u8, events: &mut Vec<Event>)
        ensures
            ({
                let d = step(old(self)@.0, old(self)@.1, byte);
                final(self)@ == (d.pending, d.paste) && views(final(events)@) == views(
                    old(events)@,
                ) + d.events
            }),
    {
        proof {
            reveal(step);
        }
        self.pending.push(byte);
        if self.paste {
            self.paste_byte(events);
            return ;
        }
        if self.paste_starts(events) {
            return ;
        }
        if byte == 0x1b && self.pending.len() > 1 {
            self.escape_restarts(events);
            return ;
        }
        if self.in_report() {
            self.report_byte(byte, events);
            return ;
        }
        self.key(events);
    }

    /// Text inside a paste: delivered at the terminator, or in bounded
    /// pieces when a paste is longer than the limit.
    fn paste_byte(&mut self, events: &mut Vec<Event>)
        requires
            old(self)@.1,
            old(self)@.0.len() > 0,
        ensures
            ({
                let d = paste_step(old(self)@.0);
                final(self)@ == (d.pending, d.paste) && views(final(events)@) == views(
                    old(events)@,
                ) + d.events
            }),
    {
        let ghost p = self.pending@;
        let n = self.pending.len();
        if n >= 6 && paste_marker_at(&self.pending, n - 6, true) {
            self.pending.truncate(n - 6);
            assert(self.pending@ =~= p.take(p.len() - 6));
            let text = text_of_bytes(self.pending.as_slice());
            proof {
                views_push(events@, Event::Paste(text));
            }
            events.push(Event::Paste(text));
            self.pending.clear();
            self.paste = false;
        } else if n > PASTE_LIMIT {
            let mut cut = n - 5;
            let floor = cut - 3;
            while cut > floor && 0x80 <= self.pending[cut] && self.pending[cut] <= 0xbf
                invariant
                    self.pending@ == p,
                    p.len() == n,
                    floor == n - 8,
                    floor <= cut <= n - 5,
                    cut_back(p, cut as int, floor as int) == paste_cut(p),
                decreases cut - floor,
            {
                cut = cut - 1;
            }
            let rest = self.pending.split_off(cut);
            let text = text_of_bytes(self.pending.as_slice());
            proof {
                views_push(events@, Event::Paste(text));
                assert(self.pending@ =~= p.take(cut as int));
                assert(rest@ =~= p.skip(cut as int));
            }
            events.push(Event::Paste(text));
            self.pending = rest;
        } else {
            assert(views(events@) + Seq::empty() =~= views(events@));
        }
    }

    /// A paste begins, possibly after an Escape that is then a key of its
    /// own. Nothing changes when it does not.
    fn paste_starts(&mut self, events: &mut Vec<Event>) -> (r: bool)
        requires
            !old(self)@.1,
        ensures
            r == paste_begins(old(self)@.0),
            r ==> final(self)@ == (Seq::<u8>::empty(), true) && views(final(events)@) == views(
                old(events)@,
            ) + (if starts(old(self)@.0, two_escapes()) {
                seq![escape_key()]
            } else {
                Seq::empty()
            }),
            !r ==> final(self)@ == old(self)@ && final(events)@ == old(events)@,
    {
        let escaped = two_escapes_at(&self.pending);
        let off: usize = if escaped {
            1
        } else {
            0
        };
        if off > self.pending.len() || !paste_marker_at(&self.pending, off, false) {
            return false;
        }
        if escaped {
            proof {
                views_push(events@, Event::Key(Key::Escape, no_modifiers()));
            }
            events.push(Event::Key(Key::Escape, Modifiers::none()));
        } else {
            assert(views(events@) + Seq::empty() =~= views(events@));
        }
        self.pending.clear();
        self.paste = true;
        true
    }

    /// Escape never occurs inside a report or a character, so it begins the
    /// next input, except that a second Escape may introduce Alt.
    fn escape_restarts(&mut self, events: &mut Vec<Event>)
        requires
            old(self)@.0.len() > 1,
            old(self)@.0.last() == esc(),
        ensures
            ({
                let p = old(self)@.0;
                let before = p.drop_last();
                final(self)@ == (
                    if before == seq![esc()] {
                        p
                    } else {
                        seq![esc()]
                    },
                    old(self)@.1,
                ) && views(final(events)@) == views(old(events)@) + (if before == two_escapes() {
                    seq![EventView::Key(Key::Escape, alt_only())]
                } else {
                    Seq::empty()
                })
            }),
    {
        let ghost p = self.pending@;
        let ghost before = p.drop_last();
        let n = self.pending.len();
        let twice = n == 3 && self.pending[0] == 0x1b && self.pending[1] == 0x1b;
        let once = n == 2 && self.pending[0] == 0x1b;
        proof {
            if twice {
                assert(before =~= two_escapes());
            } else if before.len() == 2 {
                assert(before[0] != 0x1b || before[1] != 0x1b);
                assert(before != two_escapes());
            }
            if once {
                assert(before =~= seq![esc()]);
            } else if before.len() == 1 {
                assert(before[0] != seq![esc()][0]);
                assert(before != seq![esc()]);
            }
        }
        if twice {
            let alt = Modifiers { ctrl: false, alt: true, shift: false, meta: false };
            proof {
                views_push(events@, Event::Key(Key::Escape, alt));
            }
            events.push(Event::Key(Key::Escape, alt));
        } else {
            assert(views(events@) + Seq::empty() =~= views(events@));
        }
        if !once {
            self.pending.clear();
            self.pending.push(0x1b);
            assert(self.pending@ =~= seq![esc()]);
        }
    }

    /// Whether the bytes so far belong to a CSI or SS3 report.
    fn in_report(&self) -> (r: bool)
        ensures
            r == in_report(self@.0),
    {
        let off: usize = if two_escapes_at(&self.pending) {
            1
        } else {
            0
        };
        let n = self.pending.len();
        let r = n >= off + 2 && self.pending[off] == 0x1b && (self.pending[off + 1] == 0x5b
            || self.pending[off + 1] == 0x4f);
        proof {
            let t = self.pending@.skip(off as int);
            if t.len() >= 2 {
                assert(t[0] == self.pending@[off as int] && t[1] == self.pending@[off + 1]);
                if r {
                    if t[1] == 0x5b {
                        assert(t.take(2) =~= seq![0x1bu8, 0x5b]);
                    } else {
                        assert(t.take(2) =~= seq![0x1bu8, 0x4f]);
                    }
                } else {
                    assert(t.take(2)[0] == t[0] && t.take(2)[1] == t[1]);
                }
            }
        }
        r
    }

    /// A CSI or SS3 report in progress, with an Escape before it adding Alt.
    fn report_byte(&mut self, byte: u8, events: &mut Vec<Event>)
        requires
            old(self)@.0.len() > 0,
            !old(self)@.1,
        ensures
            ({
                let d = report_step(old(self)@.0, byte);
                final(self)@ == (d.pending, d.paste) && views(final(events)@) == views(
                    old(events)@,
                ) + d.events
            }),
    {
        let ghost p = self.pending@;
        let alt = two_escapes_at(&self.pending);
        let off: usize = if alt {
            1
        } else {
            0
        };
        let n = self.pending.len();
        let ghost r = p.skip(off as int);
        let bracket = n - off == 3 && self.pending[off] == 0x1b && self.pending[off + 1] == 0x5b
            && self.pending[off + 2] == 0x5b;
        proof {
            if bracket {
                assert(r =~= seq![0x1bu8, 0x5b, 0x5b]);
            } else if r.len() == 3 {
                assert(r[0] == p[off as int] && r[1] == p[off + 1] && r[2] == p[off + 2]);
                assert(r != seq![0x1bu8, 0x5b, 0x5b]);
            }
        }
        if n > SEQUENCE_LIMIT {
            self.pending.clear();
            assert(views(events@) + Seq::empty() =~= views(events@));
            return ;
        }
        if n - off > 2 && 0x40 <= byte && byte <= 0x7e && !bracket {
            let e = sequence(self.pending.as_slice(), off, n);
            assert(self.pending@.subrange(off as int, n as int) =~= r);
            match e {
                Some(Event::Key(k, m)) => {
                    let m2 = Modifiers { alt: m.alt || alt, ..m };
                    proof {
                        views_push(events@, Event::Key(k, m2));
                    }
                    events.push(Event::Key(k, m2));
                },
                Some(e) => {
                    proof {
                        views_push(events@, e);
                    }
                    events.push(e);
                },
                None => {
                    assert(views(events@) + Seq::empty() =~= views(events@));
                },
            }
            self.pending.clear();
            return ;
        }
        assert(views(events@) + Seq::empty() =~= views(events@));
    }

    /// A key typed as text, possibly after an Escape that means Alt.
    /// Nothing happens until the character is complete.
    fn key(&mut self, events: &mut Vec<Event>)
        requires
            old(self)@.0.len() > 0,
            !old(self)@.1,
        ensures
            ({
                let d = key_step(old(self)@.0);
                final(self)@ == (d.pending, d.paste) && views(final(events)@) == views(
                    old(events)@,
                ) + d.events
            }),
    {
        let ghost p = self.pending@;
        let n = self.pending.len();
        if n == 2 && self.pending[0] == 0x1b && self.pending[1] == 0x1b {
            assert(p =~= two_escapes());
            assert(views(events@) + Seq::empty() =~= views(events@));
            return ;
        }
        proof {
            if p.len() == 2 {
                assert(p[0] != 0x1b || p[1] != 0x1b);
                assert(p != two_escapes());
            }
        }
        let ghost start_events = views(events@);
        let lead = two_escapes_at(&self.pending);
        if lead {
            proof {
                views_push(events@, Event::Key(Key::Escape, no_modifiers()));
            }
            events.push(Event::Key(Key::Escape, Modifiers::none()));
            self.pending.remove(0);
            assert(self.pending@ =~= p.drop_first());
        }
        let ghost q = self.pending@;
        let ghost pre: Seq<EventView> = if lead {
            seq![escape_key()]
        } else {
            Seq::empty()
        };
        assert(views(events@) =~= start_events + pre);
        let n = self.pending.len();
        let alt = n > 0 && self.pending[0] == 0x1b;
        let off: usize = if alt {
            1
        } else {
            0
        };
        let ghost t = q.skip(off as int);
        assert(self.pending@.subrange(off as int, n as int) =~= t);
        match utf8_status_exec(self.pending.as_slice(), off, n) {
            Utf8::Incomplete => {
                return ;
            },
            Utf8::Invalid => {
                self.pending.clear();
                return ;
            },
            Utf8::Valid => {},
        }
        if off == n {
            return ;
        }
        let c = first_code_exec(self.pending.as_slice(), off, n);
        proof {
            vstd::utf8::char_u32_cast(c, first_code(t));
        }
        match key_of_exec(c, alt) {
            Some((k, m)) => {
                proof {
                    views_push(events@, Event::Key(k, m));
                }
                events.push(Event::Key(k, m));
            },
            None => {},
        }
        self.pending.clear();
    }
}

/// Tilde reports name keys as xterm's table does: each editing key has its
/// own number, Home and End two each, and the function keys their own.
pub proof fn tilde_numbers_name_their_keys(n: u32)
    ensures
        (tilde_key_spec(n) == Some(Key::Insert)) == (n == 2),
        (tilde_key_spec(n) == Some(Key::Delete)) == (n == 3),
        (tilde_key_spec(n) == Some(Key::Home)) == (n == 1 || n == 7),
        (tilde_key_spec(n) == Some(Key::End)) == (n == 4 || n == 8),
        (tilde_key_spec(n) == Some(Key::PageUp)) == (n == 5),
        (tilde_key_spec(n) == Some(Key::PageDown)) == (n == 6),
        forall|f: u8|
            1 <= f <= 12 ==> ((tilde_key_spec(n) == Some(Key::Function(f))) == (n == (if f <= 5 {
                f + 10
            } else if f <= 10 {
                f + 11
            } else {
                f + 12
            }))),
        tilde_key_spec(n) is Some ==> match tilde_key_spec(n) {
            Some(Key::Function(f)) => 1 <= f <= 12,
            Some(k) => k == Key::Insert || k == Key::Delete || k == Key::Home || k == Key::End
                || k == Key::PageUp || k == Key::PageDown,
            None => true,
        },
{
}

/// Distinct tilde numbers name distinct keys, but for the two spellings of
/// Home and of End.
pub proof fn tilde_numbers_are_distinct(a: u32, b: u32)
    requires
        tilde_key_spec(a) is Some,
        tilde_key_spec(a) == tilde_key_spec(b),
    ensures
        a == b || (a == 1 || a == 7) && (b == 1 || b == 7) || (a == 4 || a == 8) && (b == 4 || b == 8),
{
}

/// A complete tilde report with one number and no modifier field, as
/// terminals send the editing keys (`ESC [ 3 ~` for Delete), is that
/// number's key with no modifier held.
pub proof fn a_tilde_report_is_its_key(d: u8)
    requires
        0x31 <= d <= 0x38,
    ensures
        sequence_spec(seq![0x1bu8, 0x5b, d, 0x7e]) == Some(
            EventView::Key(tilde_key_spec((d - 0x30) as u32)->0, no_modifiers()),
        ),
{
    let bytes = seq![0x1bu8, 0x5b, d, 0x7e];
    let body = bytes.subrange(2, bytes.len() - 1);
    assert(body =~= seq![d]);
    assert(body.skip(1) =~= Seq::<u8>::empty());
    assert(utf8_status(body.skip(1)) == Utf8::Valid);
    assert(first_char(body) == First::Complete(1));
    assert(utf8_status(body) == Utf8::Valid);
    assert(body.drop_last() =~= Seq::<u8>::empty());
    assert(split(body.drop_last(), 0x3b) == seq![Seq::<u8>::empty()]);
    assert(split(body, 0x3b) =~= seq![seq![d]]);
    assert(split(body.drop_last(), 0x3a) == seq![Seq::<u8>::empty()]);
    assert(split(seq![d], 0x3a) =~= seq![seq![d]]);
    assert(seq![d].drop_last() =~= Seq::<u8>::empty());
    assert(digits_value(seq![d]) == (d - 48) as nat);
    assert(parse_number(seq![d], 0xffff_ffff) == Some((d - 48) as nat));
    assert(field_value(body, 0, 0) == Some((d - 0x30) as u32));
    assert(field_value(body, 1, 1) is None);
    assert(field_value(body, 1, 0) is None);
    assert((0u32 & 1) == 0 && (0u32 & 2) == 0 && (0u32 & 4) == 0 && (0u32 & 56) == 0) by (bit_vector);
    assert(param_modifiers(1) == no_modifiers());
}

/// The modifier parameter of a key report is one more than its bits:
/// Shift 1, Alt 2, Ctrl 4 (so `ESC [ 1 ; 5 A` is Ctrl+Up).
pub proof fn modifier_parameter_names_its_bits(shift: bool, alt: bool, ctrl: bool)
    ensures
        param_modifiers(
            (1 + (if shift { 1u32 } else { 0 }) + (if alt { 2u32 } else { 0 }) + (if ctrl { 4u32 } else { 0 })) as u32,
        ) == (Modifiers { shift, alt, ctrl, meta: false }),
{
    let n: u32 = ((if shift { 1u32 } else { 0 }) + (if alt { 2u32 } else { 0 }) + (if ctrl { 4u32 } else { 0 })) as u32;
    assert(forall|k: u32|
        k < 8 ==> ((k & 1) != 0) == (k % 2 == 1) && ((k & 2) != 0) == ((k / 2) % 2 == 1) && ((k & 4)
            != 0) == ((k / 4) % 2 == 1) && (k & 56) == 0) by (bit_vector);
    assert(n < 8);
    assert((n & 1) != 0 == shift);
    assert((n & 2) != 0 == alt);
    assert((n & 4) != 0 == ctrl);
}

/// The cursor keys' reports, `ESC [` and a final letter, name the keys
/// ECMA-48 and xterm give them: `A` Up, `B` Down, `C` Right, `D` Left,
/// `H` Home and `F` End, with no modifier held.
pub proof fn cursor_reports_are_their_keys(end: u8)
    requires
        end == 0x41 || end == 0x42 || end == 0x43 || end == 0x44 || end == 0x48 || end == 0x46,
    ensures
        sequence_spec(seq![0x1bu8, 0x5b, end]) == Some(
            EventView::Key(
                if end == 0x41 {
                    Key::Up
                } else if end == 0x42 {
                    Key::Down
                } else if end == 0x43 {
                    Key::Right
                } else if end == 0x44 {
                    Key::Left
                } else if end == 0x48 {
                    Key::Home
                } else {
                    Key::End
                },
                no_modifiers(),
            ),
        ),
{
    let bytes = seq![0x1bu8, 0x5b, end];
    let body = bytes.subrange(2, bytes.len() - 1);
    assert(body =~= Seq::<u8>::empty());
    assert(utf8_status(body) == Utf8::Valid);
    assert(body != seq![0x5bu8]);
    assert(split(body, 0x3b) == seq![Seq::<u8>::empty()]);
    assert(field_value(body, 1, 1) is None);
    assert(field_value(body, 1, 0) is None);
    assert((0u32 & 1) == 0 && (0u32 & 2) == 0 && (0u32 & 4) == 0 && (0u32 & 56) == 0) by (bit_vector);
    assert(param_modifiers(1) == no_modifiers());
}

/// Typed characters are keys: a printable character is itself, Escape
/// before it adding Alt; Ctrl with a letter sends the letter's place in the
/// alphabet, and decodes as Ctrl and that letter, but for the four that
/// double as Backspace, Tab, Enter and line feed.
pub proof fn typed_characters_are_their_keys(c: char, alt: bool, letter: u8)
    ensures
        !is_control(c) ==> key_of(c, alt) == Some(
            (Key::Char(c), Modifiers { ctrl: false, alt, shift: false, meta: false }),
        ),
        0x61 <= letter <= 0x7a && letter != 0x68 && letter != 0x69 && letter != 0x6a && letter != 0x6d
            ==> key_of(((letter - 0x60) as u8) as char, alt) == Some(
            (Key::Char(letter as char), Modifiers { ctrl: true, alt, shift: false, meta: false }),
        ),
        key_of(13u8 as char, alt) == Some((Key::Enter, Modifiers { ctrl: false, alt, shift: false, meta: false })),
        key_of(9u8 as char, alt) == Some((Key::Tab, Modifiers { ctrl: false, alt, shift: false, meta: false })),
        key_of(0x7fu8 as char, alt) == Some(
            (Key::Backspace, Modifiers { ctrl: false, alt, shift: false, meta: false }),
        ),
{
}

/// SGR mouse reports count cells from one, and their code holds the button
/// in its low bits (0 left, 1 middle, 2 right), Shift 4, Alt 8 and Ctrl 16:
/// `M` reports a press and `m` a release at the cell one up and one left
/// of the numbers; with 32 added a press is a drag, and with 64 the low
/// bits 0 and 1 are the wheel turned up and down.
pub proof fn mouse_reports_are_their_events(button: u16, shift: bool, alt: bool, ctrl: bool, x: u16, y: u16)
    requires
        button < 3,
        1 <= x,
        1 <= y,
    ensures
        ({
            let code = (button + (if shift { 4u16 } else { 0 }) + (if alt { 8u16 } else { 0 }) + (if ctrl {
                16u16
            } else {
                0
            })) as u16;
            let b = if button == 0 {
                Button::Left
            } else if button == 1 {
                Button::Middle
            } else {
                Button::Right
            };
            let m = Modifiers { shift, alt, ctrl, meta: false };
            &&& mouse_event_spec(code, x, y, 0x4d) == Some(
                EventView::Mouse(Mouse { x: (x - 1) as u16, y: (y - 1) as u16, kind: MouseKind::Down(b), modifiers: m }),
            )
            &&& mouse_event_spec(code, x, y, 0x6d) == Some(
                EventView::Mouse(Mouse { x: (x - 1) as u16, y: (y - 1) as u16, kind: MouseKind::Up(b), modifiers: m }),
            )
            &&& mouse_event_spec((code + 32) as u16, x, y, 0x4d) == Some(
                EventView::Mouse(Mouse { x: (x - 1) as u16, y: (y - 1) as u16, kind: MouseKind::Drag(b), modifiers: m }),
            )
            &&& mouse_event_spec((code - button + 64) as u16, x, y, 0x4d) == Some(
                EventView::Mouse(Mouse { x: (x - 1) as u16, y: (y - 1) as u16, kind: MouseKind::ScrollUp, modifiers: m }),
            )
            &&& mouse_event_spec((code - button + 65) as u16, x, y, 0x4d) == Some(
                EventView::Mouse(
                    Mouse { x: (x - 1) as u16, y: (y - 1) as u16, kind: MouseKind::ScrollDown, modifiers: m },
                ),
            )
        }),
{
    let mods: u16 = ((if shift { 4u16 } else { 0 }) + (if alt { 8u16 } else { 0 }) + (if ctrl { 16u16 } else { 0 })) as u16;
    let code: u16 = (button + mods) as u16;
    assert(forall|c: u16|
        c < 128 ==> (#[trigger] (c & 3)) == c % 4 && ((c & 4) != 0) == ((c / 4) % 2 == 1) && ((c & 8) != 0)
            == ((c / 8) % 2 == 1) && ((c & 16) != 0) == ((c / 16) % 2 == 1) && ((c & 32) != 0) == ((c / 32)
            % 2 == 1) && ((c & 64) != 0) == ((c / 64) % 2 == 1) && (c & 128) == 0) by (bit_vector);
    assert(mods < 32 && mods % 4 == 0);
    assert((mods / 4) % 2 == 1 <==> shift);
    assert((mods / 8) % 2 == 1 <==> alt);
    assert((mods / 16) % 2 == 1 <==> ctrl);
    let drag: u16 = (code + 32) as u16;
    let up: u16 = (mods + 64) as u16;
    let down: u16 = (mods + 65) as u16;
    assert(code & 3 == code % 4);
    assert(drag & 3 == drag % 4);
    assert(up & 3 == up % 4);
    assert(down & 3 == down % 4);
}

} // verus!
