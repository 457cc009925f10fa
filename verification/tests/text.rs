use wove::text::{clean, edit, Editor};
use wove::{Event, Key, Modifiers, Response};

#[test]
fn selection_replaces_whole_graphemes_and_undo_restores_it() {
    let mut e = Editor::new("a👩‍💻e\u{301}");
    e.left(true);
    e.left(true);
    assert_eq!(&e.text()[e.selection()], "👩‍💻e\u{301}");
    e.insert("界");
    assert_eq!(e.text(), "a界");
    e.undo();
    assert_eq!(&e.text()[e.selection()], "👩‍💻e\u{301}");
    e.redo();
    assert_eq!(e.text(), "a界");
}

#[test]
fn insertion_that_joins_a_cluster_keeps_cursor_on_a_boundary() {
    let mut e = Editor::new("👩💻");
    e.left(false);
    e.insert("\u{200d}");
    assert_eq!(e.cursor(), e.text().len());
    e.backspace();
    assert_eq!(e.text(), "");
}

#[test]
fn vertical_movement_preserves_display_column_through_short_lines() {
    let mut editor = Editor::new("界ab\nx\n界cd");
    editor.vertical(-1, false);
    assert_eq!(editor.cursor(), "界ab\nx".len());
    editor.vertical(-1, true);
    assert_eq!(editor.cursor(), "界ab".len());
    assert_eq!(&editor.text()[editor.selection()], "\nx");
}

#[test]
fn undo_tracks_joined_grapheme_edits_and_discards_redo_after_new_input() {
    let mut editor = Editor::new("👩💻");
    editor.left(false);
    editor.insert("\u{200d}");
    editor.undo();
    assert_eq!(editor.text(), "👩💻");
    editor.redo();
    assert_eq!(editor.text(), "👩‍💻");
    editor.undo();
    editor.insert(" ");
    editor.redo();
    assert_eq!(editor.text(), "👩 💻");
}

#[test]
fn logical_line_navigation_never_stops_inside_a_crlf_grapheme() {
    let mut editor = Editor::new("a\r\nb");
    editor.home(false);
    editor.line_end(false);
    assert_eq!(editor.cursor(), 1);
    editor.vertical(1, false);
    assert_eq!(editor.cursor(), 4);
    editor.vertical(-1, false);
    assert_eq!(editor.cursor(), 1);
}

#[test]
fn undoing_a_backspace_restores_the_cursor_not_the_erased_range() {
    let mut editor = Editor::new("abc");
    editor.backspace();
    assert_eq!(editor.text(), "ab");
    assert_eq!(editor.cursor(), 2);
    editor.undo();
    assert_eq!(editor.text(), "abc");
    assert_eq!(editor.cursor(), 3);
    assert_eq!(editor.selection(), 3..3);
}

#[test]
fn deleting_at_the_end_changes_nothing() {
    let mut editor = Editor::new("ab");
    editor.delete();
    assert_eq!(editor.text(), "ab");
    editor.undo();
    assert_eq!(editor.text(), "ab");
    editor.home(false);
    editor.delete();
    assert_eq!(editor.text(), "b");
    assert_eq!(editor.cursor(), 0);
}

#[test]
fn seeking_snaps_back_to_a_grapheme_start() {
    let mut editor = Editor::new("a界b");
    editor.seek(2, false);
    assert_eq!(editor.cursor(), 1);
    editor.seek(4, true);
    assert_eq!(editor.cursor(), 4);
    assert_eq!(editor.selection(), 1..4);
    editor.seek(100, false);
    assert_eq!(editor.cursor(), 5);
    editor.select_all();
    assert_eq!(editor.selection(), 0..5);
    editor.right(false);
    assert_eq!(editor.cursor(), 5);
    editor.left(false);
    assert_eq!(editor.cursor(), 4);
}

#[test]
fn line_home_and_end_stay_on_the_cursors_line() {
    let mut editor = Editor::new("ab\ncd\nef");
    editor.seek(4, false);
    editor.line_home(false);
    assert_eq!(editor.cursor(), 3);
    editor.line_end(true);
    assert_eq!(editor.cursor(), 5);
    assert_eq!(&editor.text()[editor.selection()], "cd");
}

#[test]
fn a_hundred_edits_are_kept() {
    let mut editor = Editor::default();
    for _ in 0..105 {
        editor.insert("x");
    }
    for _ in 0..110 {
        editor.undo();
    }
    assert_eq!(editor.text(), "xxxxx");
    editor.set("new");
    editor.undo();
    assert_eq!(editor.text(), "new");
}

#[test]
fn pasted_text_is_cleaned_for_the_input_it_goes_to() {
    assert_eq!(clean("a\r\nb\rc\u{7}\td", false), "abcd");
    assert_eq!(clean("a\r\nb\rc\u{7}\td", true), "a\nb\ncd");
    assert_eq!(clean("\r\r\n", true), "\n\n");
}

fn key(key: Key, ctrl: bool, shift: bool) -> Event {
    Event::Key(
        key,
        Modifiers {
            ctrl,
            shift,
            ..Modifiers::default()
        },
    )
}

#[test]
fn editing_events_type_move_and_undo() {
    let mut editor = Editor::default();
    assert_eq!(edit(&mut editor, &key(Key::Char('h'), false, false), false), Response::repaint());
    edit(&mut editor, &key(Key::Char('i'), false, false), false);
    assert_eq!(editor.text(), "hi");
    assert_eq!(edit(&mut editor, &key(Key::Enter, false, false), false), Response::ignore());
    edit(&mut editor, &key(Key::Enter, false, false), true);
    assert_eq!(editor.text(), "hi\n");
    edit(&mut editor, &key(Key::Char('z'), true, false), true);
    assert_eq!(editor.text(), "hi");
    edit(&mut editor, &key(Key::Char('z'), true, true), true);
    assert_eq!(editor.text(), "hi\n");
    edit(&mut editor, &key(Key::Char('a'), true, false), true);
    edit(&mut editor, &Event::Paste("x\r\ny".to_string()), false);
    assert_eq!(editor.text(), "xy");
    assert_eq!(edit(&mut editor, &key(Key::Char('q'), true, false), false), Response::ignore());
    assert_eq!(edit(&mut editor, &Event::Focus, false), Response::ignore());
}
