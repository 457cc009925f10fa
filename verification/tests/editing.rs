use wove::elements::{Input, Textarea};
use wove::{Buffer, Button, Canvas, Element, Event, Key, Modifiers, Mouse, MouseKind};

fn paint(element: &impl Element, width: u16, height: u16, focused: bool) -> Buffer {
    let mut frame = Buffer::new(width, height);
    let area = frame.area();
    let mut canvas = Canvas::new(&mut frame, (0, 0), area, (width, height), focused);
    element.paint(&mut canvas);
    frame
}

fn symbol(frame: &Buffer, x: u16, y: u16) -> String {
    frame.cell(x, y).unwrap().symbol().to_string()
}

fn key(k: Key) -> Event {
    Event::Key(k, Modifiers::default())
}

#[test]
fn textarea_paste_navigation_and_selection_paint_use_logical_lines() {
    let mut area = Textarea::default();
    area.event(&Event::Paste("a\r\n界b\nc".to_string()));
    area.event(&Event::Key(
        Key::Up,
        Modifiers {
            shift: true,
            ..Modifiers::default()
        },
    ));
    area.viewport((8, 3), (0, 0));
    let frame = paint(&area, 8, 3, true);
    assert!(frame.cell(0, 1).unwrap().style().reverse);
    assert_eq!(frame.cursor(), Some((0, 1)));
    area.event(&Event::Key(
        Key::Char('z'),
        Modifiers {
            ctrl: true,
            ..Modifiers::default()
        },
    ));
    assert_eq!(area.editor.text(), "");
}

#[test]
fn textarea_measures_logical_lines_and_shows_its_placeholder() {
    let area = Textarea::new("a\r\n界b\nc");
    assert_eq!(area.editor.text(), "a\n界b\nc");
    assert_eq!(area.measure(None), (3, 3));
    let mut empty = Textarea::default();
    empty.placeholder = "note".to_string();
    let frame = paint(&empty, 6, 2, false);
    assert_eq!(symbol(&frame, 0, 0), "n");
    assert_eq!(symbol(&frame, 3, 0), "e");
}

#[test]
fn textarea_wraps_at_words_and_every_row_fits() {
    let mut area = Textarea::new("ab cd");
    area.wrap = true;
    assert_eq!(area.measure(Some(3)), (3, 2));
    let frame = paint(&area, 3, 2, false);
    assert_eq!(symbol(&frame, 0, 1), "c");
    assert_eq!(symbol(&frame, 1, 1), "d");
    let mut long = Textarea::new(" bcd界");
    long.wrap = true;
    assert!(long.measure(Some(4)).0 <= 4);
}

#[test]
fn textarea_scrolls_to_keep_the_cursor_in_view() {
    let mut area = Textarea::new("one\ntwo\nthree\nfour");
    area.viewport((5, 2), (0, 0));
    assert_eq!(area.editor.view_offset(), (2, 0));
    let frame = paint(&area, 5, 2, true);
    assert_eq!(symbol(&frame, 0, 0), "t");
    assert_eq!(symbol(&frame, 0, 1), "f");
    assert_eq!(frame.cursor(), Some((4, 1)));
}

#[test]
fn input_scrolls_to_keep_the_cursor_in_view() {
    let mut input = Input::new("abcdef");
    input.viewport((4, 1), (0, 0));
    assert_eq!(input.editor.view_offset(), (0, 3));
    let frame = paint(&input, 4, 1, true);
    assert_eq!(symbol(&frame, 0, 0), "d");
    assert_eq!(symbol(&frame, 2, 0), "f");
    assert_eq!(frame.cursor(), Some((3, 0)));
}

#[test]
fn input_masks_its_value_and_ignores_clicks_while_masked() {
    let mut input = Input::new("ab");
    input.mask = Some('*');
    let frame = paint(&input, 4, 1, false);
    assert_eq!(symbol(&frame, 0, 0), "*");
    assert_eq!(symbol(&frame, 1, 0), "*");
    let click = Event::Mouse(Mouse {
        x: 0,
        y: 0,
        kind: MouseKind::Down(Button::Left),
        modifiers: Modifiers::default(),
    });
    let r = input.event(&click);
    assert!(!r.handled);
}

#[test]
fn input_stops_typing_and_pasting_at_its_limit() {
    let mut input = Input::default();
    input.limit = Some(2);
    let r = input.event(&Event::Paste("abc".to_string()));
    assert!(r.handled && r.changed);
    assert_eq!(input.editor.text(), "ab");
    let r = input.event(&key(Key::Char('x')));
    assert!(r.handled && !r.changed);
    assert_eq!(input.editor.text(), "ab");
    input.event(&key(Key::Backspace));
    input.event(&key(Key::Char('界')));
    assert_eq!(input.editor.text(), "a界");
}

#[test]
fn input_reverses_the_selection_when_focused_and_measures_one_cell_more() {
    let mut input = Input::new("ab");
    input.editor.left(true);
    let frame = paint(&input, 4, 1, true);
    assert!(!frame.cell(0, 0).unwrap().style().reverse);
    assert!(frame.cell(1, 0).unwrap().style().reverse);
    let unfocused = paint(&input, 4, 1, false);
    assert!(!unfocused.cell(1, 0).unwrap().style().reverse);
    assert_eq!(Input::new("界a").measure(None), (4, 1));
}

#[test]
fn word_wrap_breaks_after_unicode_spaces() {
    let spans = [wove::Span::new("ab\u{2003}cd", wove::Style::default())];
    let layout = wove::TextLayout::new(&spans, Some(4), wove::Wrap::Word);
    assert_eq!(layout.size(), (3, 2));
    let spans = [wove::Span::new("abxcd", wove::Style::default())];
    let layout = wove::TextLayout::new(&spans, Some(4), wove::Wrap::Word);
    assert_eq!(layout.size(), (4, 2));
}
