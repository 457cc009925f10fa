//! Text storage, editing, and display layout shared by terminal elements.
use crate::editor::{
    erase_spec, insert_spec, last_start, left_spec, line_end_spec, line_home_spec, move_spec,
    right_spec, splice, undo_spec, redo_spec, vertical_spec, EditorView,
};
use crate::event::{Event, EventView, Key, Modifiers, Response};
use crate::scan::{char_is_control, is_control};
use crate::unicode::{chars_of, grapheme_clusters, push_char};
use vstd::prelude::*;

pub use crate::editor::Editor;
pub use crate::layout::{Span, TextLayout, Wrap};

verus! {

/// `text` with each `\r\n` made `\n`, as `replace("\r\n", "\n")` gives it.
pub open spec fn crlf_to_lf(text: Seq<char>) -> Seq<char>
    decreases text.len(),
{
    if text.len() >= 2 && text[text.len() - 2] == '\r' && text.last() == '\n' {
        crlf_to_lf(text.take(text.len() - 2)).push('\n')
    } else if text.len() > 0 {
        crlf_to_lf(text.drop_last()).push(text.last())
    } else {
        Seq::empty()
    }
}

/// `\r` read as a newline.
pub open spec fn cr_to_lf(c: char) -> char {
    if c == '\r' {
        '\n'
    } else {
        c
    }
}

/// Whether a character stays in cleaned input: no control character but,
/// in multiline input, the newline.
pub open spec fn kept(c: char, multiline: bool) -> bool {
    !is_control(c) || (multiline && c == '\n')
}

/// The characters that stay in cleaned input.
pub open spec fn keeps(multiline: bool) -> spec_fn(char) -> bool {
    |c: char| kept(c, multiline)
}

/// Input with newlines normalized and terminal controls removed.
pub open spec fn clean_spec(value: Seq<char>, multiline: bool) -> Seq<char> {
    crlf_to_lf(value).map_values(|c: char| cr_to_lf(c)).filter(keeps(multiline))
}

/// Normalize pasted newlines and remove terminal controls before storing input.
pub fn clean(value: &str, multiline: bool) -> (r: String)
    ensures
        r@ == clean_spec(value@, multiline),
{
    let chars = chars_of(value);
    let n = chars.len();
    let mut joined: Vec<char> = Vec::new();
    let mut i: usize = 0;
    while i < n
        invariant
            n == chars@.len() == value@.len(),
            chars@ == value@,
            i <= n,
            joined@ == crlf_to_lf(value@.take(i as int)),
            i > 0 && i < n ==> !(chars@[i - 1] == '\r' && chars@[i as int] == '\n'),
        decreases n - i,
    {
        if chars[i] == '\r' && i + 1 < n && chars[i + 1] == '\n' {
            joined.push('\n');
            proof {
                let t = value@.take(i + 2);
                assert(t.take(t.len() - 2) =~= value@.take(i as int));
            }
            i = i + 2;
        } else {
            joined.push(chars[i]);
            proof {
                let t = value@.take(i + 1);
                assert(t.drop_last() =~= value@.take(i as int));
                assert(t.last() == chars@[i as int]);
                if t.len() >= 2 {
                    assert(t[t.len() - 2] == chars@[i - 1]);
                }
            }
            i = i + 1;
        }
    }
    assert(value@.take(n as int) =~= value@);
    let ghost lf = joined@.map_values(|c: char| cr_to_lf(c));
    let mut out = String::new();
    proof {
        reveal(Seq::filter);
        assert(lf.take(0) =~= Seq::<char>::empty());
    }
    let mut k: usize = 0;
    while k < joined.len()
        invariant
            k <= joined@.len(),
            lf == joined@.map_values(|c: char| cr_to_lf(c)),
            out@ == lf.take(k as int).filter(keeps(multiline)),
        decreases joined@.len() - k,
    {
        let c = if joined[k] == '\r' {
            '\n'
        } else {
            joined[k]
        };
        proof {
            assert(lf.take(k + 1).drop_last() =~= lf.take(k as int));
            assert(lf.take(k + 1).last() == c);
            assert(lf.take(k + 1) =~= lf.take(k as int).push(c));
            lf.take(k as int).lemma_filter_push(c, keeps(multiline));
            assert(lf.take(k + 1).filter(keeps(multiline)) == if kept(c, multiline) {
                lf.take(k as int).filter(keeps(multiline)).push(c)
            } else {
                lf.take(k as int).filter(keeps(multiline))
            });
        }
        if !char_is_control(c) || (multiline && c == '\n') {
            push_char(&mut out, c);
        }
        k = k + 1;
    }
    assert(lf.take(joined@.len() as int) =~= lf);
    out
}

/// An editor after an editing event, and whether the event was taken:
/// pasted text is cleaned and inserted; keys edit, move and select, with
/// newlines and line motions only in multiline input.
pub open spec fn edit_spec(v: EditorView, event: EventView, multiline: bool) -> (
    EditorView,
    Response,
) {
    let changed = Response { handled: true, changed: true };
    let ignored = Response { handled: false, changed: false };
    match event {
        EventView::Paste(value) => (insert_spec(v, clean_spec(value, multiline)), changed),
        EventView::Key(key, m) => match key {
            Key::Char(c) => if c == 'a' && m.ctrl {
                (
                    EditorView {
                        cursor: v.text.len(),
                        anchor: Some(0),
                        column: None,
                        ..v
                    },
                    changed,
                )
            } else if c == 'z' && m.ctrl && m.shift {
                (redo_spec(v), changed)
            } else if c == 'z' && m.ctrl {
                (undo_spec(v), changed)
            } else if c == 'y' && m.ctrl {
                (redo_spec(v), changed)
            } else if !m.ctrl && !m.alt && !is_control(c) {
                (insert_spec(v, seq![c]), changed)
            } else {
                (v, ignored)
            },
            Key::Enter => if multiline {
                (insert_spec(v, seq!['\n']), changed)
            } else {
                (v, ignored)
            },
            Key::Up => if multiline {
                (vertical_spec(v, -1, m.shift), changed)
            } else {
                (v, ignored)
            },
            Key::Down => if multiline {
                (vertical_spec(v, 1, m.shift), changed)
            } else {
                (v, ignored)
            },
            Key::Home => if multiline && !m.ctrl {
                (line_home_spec(v, m.shift), changed)
            } else {
                (move_spec(v, 0, m.shift), changed)
            },
            Key::End => if multiline && !m.ctrl {
                (line_end_spec(v, m.shift), changed)
            } else {
                (move_spec(v, v.text.len(), m.shift), changed)
            },
            Key::Left => (left_spec(v, m.shift), changed),
            Key::Right => (right_spec(v, m.shift), changed),
            Key::Backspace => (erase_spec(v, true), changed),
            Key::Delete => (erase_spec(v, false), changed),
            _ => (v, ignored),
        },
        _ => (v, ignored),
    }
}

/// Apply an editing event. Multiline inputs accept newlines and logical
/// line motion.
pub fn edit(editor: &mut Editor, event: &Event, multiline: bool) -> (r: Response)
    requires
        old(editor).wf(),
    ensures
        (final(editor)@, r) == edit_spec(old(editor)@, event@, multiline),
        final(editor).wf(),
{
    match event {
        Event::Paste(value) => {
            let cleaned = clean(value.as_str(), multiline);
            editor.insert(cleaned.as_str());
        },
        Event::Key(key, m) => match key {
            Key::Char(c) => {
                let c = *c;
                if c == 'a' && m.ctrl {
                    editor.select_all();
                } else if c == 'z' && m.ctrl && m.shift {
                    editor.redo();
                } else if c == 'z' && m.ctrl {
                    editor.undo();
                } else if c == 'y' && m.ctrl {
                    editor.redo();
                } else if !m.ctrl && !m.alt && !char_is_control(c) {
                    let mut s = String::new();
                    push_char(&mut s, c);
                    assert(s@ =~= seq![c]);
                    editor.insert(s.as_str());
                } else {
                    return Response::ignore();
                }
            },
            Key::Enter => {
                if multiline {
                    let mut s = String::new();
                    push_char(&mut s, '\n');
                    assert(s@ =~= seq!['\n']);
                    editor.insert(s.as_str());
                } else {
                    return Response::ignore();
                }
            },
            Key::Up => {
                if multiline {
                    editor.vertical(-1, m.shift);
                } else {
                    return Response::ignore();
                }
            },
            Key::Down => {
                if multiline {
                    editor.vertical(1, m.shift);
                } else {
                    return Response::ignore();
                }
            },
            Key::Home => {
                if multiline && !m.ctrl {
                    editor.line_home(m.shift);
                } else {
                    editor.home(m.shift);
                }
            },
            Key::End => {
                if multiline && !m.ctrl {
                    editor.line_end(m.shift);
                } else {
                    editor.end(m.shift);
                }
            },
            Key::Left => editor.left(m.shift),
            Key::Right => editor.right(m.shift),
            Key::Backspace => editor.backspace(),
            Key::Delete => editor.delete(),
            _ => {
                return Response::ignore();
            },
        },
        _ => {
            return Response::ignore();
        },
    }
    Response::repaint()
}

/// The characters of the first grapheme of `text`; none when it is empty.
pub open spec fn first_grapheme_len(text: Seq<char>) -> nat {
    let gs = grapheme_clusters(text);
    if gs.len() == 0 {
        0
    } else {
        gs[0].len()
    }
}

/// The characters of the last grapheme of `text`; none when it is empty.
pub open spec fn last_grapheme_start(text: Seq<char>) -> nat {
    last_start(grapheme_clusters(text))
}

/// Delete erases forward: with nothing selected, the Delete key removes the
/// grapheme that starts at the cursor and keeps every character before the
/// cursor, where the cursor stays when nothing was there to remove.
pub proof fn delete_erases_after_the_cursor(v: EditorView, m: Modifiers, multiline: bool)
    requires
        v.wf(),
        v.selection().0 == v.selection().1,
    ensures
        ({
            let c = v.cursor as int;
            let n = first_grapheme_len(v.text.skip(c));
            let (r, resp) = edit_spec(v, EventView::Key(Key::Delete, m), multiline);
            &&& r.text == v.text.take(c) + v.text.skip(c + n)
            &&& r.text.take(c) == v.text.take(c)
            &&& (n == 0 ==> r.text == v.text && r.cursor == v.cursor)
            &&& resp == (Response { handled: true, changed: true })
        }),
{
    let c = v.cursor as int;
    let n = first_grapheme_len(v.text.skip(c));
    let r = edit_spec(v, EventView::Key(Key::Delete, m), multiline).0;
    assert(v.text.take(c) + v.text.skip(c + n) =~= splice(v.text, c, n as int, Seq::empty()));
    if n == 0 {
        assert(v.text.skip(c) =~= v.text.skip(c + n));
        assert(v.text.take(c) + v.text.skip(c) =~= v.text);
    }
    assert((v.text.take(c) + v.text.skip(c + n)).take(c) =~= v.text.take(c));
}

/// Backspace erases backward: with nothing selected, it removes the
/// characters from the start of the last grapheme before the cursor up to
/// the cursor, and keeps every character from the cursor on.
pub proof fn backspace_erases_before_the_cursor(v: EditorView, m: Modifiers, multiline: bool)
    requires
        v.wf(),
        v.selection().0 == v.selection().1,
    ensures
        ({
            let c = v.cursor as int;
            let b = last_grapheme_start(v.text.take(c));
            let (r, resp) = edit_spec(v, EventView::Key(Key::Backspace, m), multiline);
            &&& b < c ==> r.text == v.text.take(b as int) + v.text.skip(c)
            &&& resp == (Response { handled: true, changed: true })
        }),
{
    let c = v.cursor as int;
    let b = last_grapheme_start(v.text.take(c));
    if b < c {
        assert(v.text.take(b as int) + v.text.skip(c) =~= splice(v.text, b as int, c - b, Seq::empty()));
    }
}

/// Typing replaces the selection: a printable character typed without Ctrl
/// or Alt, or pasted text, takes the place of the selected characters,
/// and the characters before and after the selection stay.
pub proof fn typing_replaces_the_selection(v: EditorView, c: char, m: Modifiers, value: Seq<char>, multiline: bool)
    requires
        v.wf(),
    ensures
        ({
            let (s, e) = v.selection();
            let typed = edit_spec(v, EventView::Key(Key::Char(c), m), multiline);
            !m.ctrl && !m.alt && !is_control(c) ==> typed.0.text == v.text.take(s as int) + seq![c]
                + v.text.skip(e as int) && typed.1 == (Response { handled: true, changed: true })
        }),
        ({
            let (s, e) = v.selection();
            let pasted = edit_spec(v, EventView::Paste(value), multiline);
            pasted.0.text == v.text.take(s as int) + clean_spec(value, multiline) + v.text.skip(e as int)
        }),
{
    let (s, e) = v.selection();
    assert(v.text.take(s as int) + seq![c] + v.text.skip(e as int) =~= splice(
        v.text,
        s as int,
        e - s,
        seq![c],
    ));
    let cv = clean_spec(value, multiline);
    if cv.len() == 0 && s == e {
        assert(v.text.take(s as int) + cv + v.text.skip(e as int) =~= v.text);
    } else {
        assert(v.text.take(s as int) + cv + v.text.skip(e as int) =~= splice(v.text, s as int, e - s, cv));
    }
}

/// Moving keeps the text: Home and End go to the start and the end of a
/// single line, or of the text with Ctrl, Left and Right go one grapheme
/// or to the selection's edge; Shift keeps the selection's other end where
/// the cursor was, and moving without it drops the selection. Ctrl+A
/// selects everything.
pub proof fn moving_keeps_the_text(v: EditorView, key: Key, m: Modifiers)
    requires
        v.wf(),
        key == Key::Home || key == Key::End || key == Key::Left || key == Key::Right,
    ensures
        ({
            let (r, resp) = edit_spec(v, EventView::Key(key, m), false);
            &&& r.text == v.text
            &&& r.undo == v.undo
            &&& r.redo == v.redo
            &&& resp == (Response { handled: true, changed: true })
            &&& key == Key::Home ==> r.cursor == 0
            &&& key == Key::End ==> r.cursor == v.text.len()
            &&& key == Key::Right && (m.shift || v.selection().0 == v.selection().1) ==> r.cursor == v.cursor
                + first_grapheme_len(v.text.skip(v.cursor as int))
            &&& key == Key::Left && (m.shift || v.selection().0 == v.selection().1) ==> r.cursor
                == last_grapheme_start(v.text.take(v.cursor as int))
            &&& key == Key::Right && !m.shift && v.selection().0 != v.selection().1 ==> r.cursor == v.selection().1
            &&& key == Key::Left && !m.shift && v.selection().0 != v.selection().1 ==> r.cursor == v.selection().0
            &&& (key == Key::Home || key == Key::End) ==> (m.shift ==> r.anchor == Some(
                match v.anchor {
                    Some(a) => a,
                    None => v.cursor,
                },
            )) && (!m.shift ==> r.anchor is None)
        }),
        ({
            let (r, _) = edit_spec(v, EventView::Key(Key::Char('a'), Modifiers { ctrl: true, ..m }), false);
            &&& r.text == v.text
            &&& r.selection() == (0nat, v.text.len())
        }),
{
}

/// Enter breaks the line only in multiline input: there it replaces the
/// selection with a newline; a single line leaves the event to others.
pub proof fn enter_breaks_only_multiline(v: EditorView, m: Modifiers)
    requires
        v.wf(),
    ensures
        ({
            let (s, e) = v.selection();
            edit_spec(v, EventView::Key(Key::Enter, m), true).0.text == v.text.take(s as int) + seq!['\n']
                + v.text.skip(e as int)
        }),
        edit_spec(v, EventView::Key(Key::Enter, m), false) == (v, Response { handled: false, changed: false }),
{
    let (s, e) = v.selection();
    assert(v.text.take(s as int) + seq!['\n'] + v.text.skip(e as int) =~= splice(
        v.text,
        s as int,
        e - s,
        seq!['\n'],
    ));
}

} // verus!
