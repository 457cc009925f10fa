use std::cell::Cell;
use std::rc::Rc;
use wove::elements::{fit, navigate, window, Lazy, List, Panel, Scroll, Select, Table, Text};
use wove::testing::snapshot;
use wove::{Buffer, Canvas, Color, Element, Event, Key, Modifiers, Response, Span, Style, TextLayout, Wrap};

/// Paint `element` into a fresh frame of `width` by `height` cells.
fn paint(element: &impl Element, width: u16, height: u16, focused: bool) -> Buffer {
    let mut frame = Buffer::new(width, height);
    let area = frame.area();
    let mut canvas = Canvas::new(&mut frame, (0, 0), area, (width, height), focused);
    element.paint(&mut canvas);
    frame
}

fn key(k: Key) -> Event {
    Event::Key(k, Modifiers::default())
}

#[test]
fn the_window_moves_only_as_far_as_the_selection_needs() {
    assert_eq!(window(0, 5, 10, 3), 3);
    assert_eq!(window(4, 5, 10, 3), 4);
    assert_eq!(window(4, 1, 10, 3), 1);
    assert_eq!(window(9, 9, 10, 3), 7);
    assert_eq!(window(0, 0, 0, 3), 0);
}

#[test]
fn navigation_clamps_and_reports_whether_the_selection_moved() {
    let (mut selected, mut offset) = (0, 0);
    assert_eq!(navigate(&key(Key::Up), &mut selected, &mut offset, 5, 2, 0), Response::handled());
    assert_eq!(navigate(&key(Key::End), &mut selected, &mut offset, 5, 2, 0), Response::repaint());
    assert_eq!((selected, offset), (4, 3));
    assert_eq!(navigate(&key(Key::PageUp), &mut selected, &mut offset, 5, 2, 0), Response::repaint());
    assert_eq!((selected, offset), (2, 2));
    assert_eq!(navigate(&key(Key::Char('x')), &mut selected, &mut offset, 5, 2, 0), Response::ignore());
}

#[test]
fn a_title_is_cut_to_whole_graphemes() {
    assert_eq!(fit("A long title", 4), ("A lo".to_string(), 4));
    assert_eq!(fit("界界", 3), ("界".to_string(), 2));
    assert_eq!(fit("", 3), (String::new(), 0));
}

#[test]
fn a_panel_draws_its_border_title_and_fill() {
    let panel = Panel {
        title: "A long title".into(),
        style: Style {
            bg: Color::Indexed(4),
            ..Style::default()
        },
    };
    let frame = paint(&panel, 10, 3, false);
    assert_eq!(frame.lines(), ["┌─ A lo ─┐", "│        │", "└────────┘"]);
    assert_eq!(frame.cell(4, 1).unwrap().style().bg, Color::Indexed(4));
}

#[test]
fn text_wraps_at_the_width_and_measures_what_it_paints() {
    let mut text = Text::new("hello world\nab");
    assert_eq!(text.measure(None), (11, 2));
    text.wrap = true;
    assert_eq!(text.measure(Some(5)), (5, 4));
    let frame = paint(&text, 5, 4, false);
    assert_eq!(snapshot(&frame), "hello\n worl\nd\nab\n@cursor none\n");
}

#[test]
fn a_select_moves_its_highlight_and_paints_it() {
    let mut select = Select::new(vec!["one".into(), "two".into(), "three".into()]);
    assert_eq!(select.measure(None), (5, 3));
    assert!(select.focusable());
    assert_eq!(select.event(&key(Key::Down)), Response::repaint());
    assert_eq!(select.selected, 1);
    select.highlight = Style {
        reverse: true,
        ..Style::default()
    };
    let frame = paint(&select, 5, 2, true);
    assert_eq!(frame.lines()[1], "two  ");
    assert!(frame.cell(0, 1).unwrap().style().reverse);
    assert!(!frame.cell(0, 0).unwrap().style().reverse);
}

#[test]
fn table_preserves_header_and_clips_wide_cells_before_next_column() {
    let mut table = Table::new(
        vec![("A".into(), 3), ("B".into(), 3)],
        vec![
            vec!["界界".into(), "one".into()],
            vec!["x".into(), "two".into()],
            vec!["y".into(), "end".into()],
        ],
    );
    table.viewport((8, 3), (0, 0));
    let frame = paint(&table, 8, 3, true);
    assert_eq!(frame.cell(4, 1).unwrap().symbol(), "o");
    assert_eq!(table.event(&key(Key::End)), Response::repaint());
    table.viewport((8, 3), (0, 0));
    let frame = paint(&table, 8, 3, true);
    assert_eq!(frame.cell(0, 0).unwrap().symbol(), "A");
    assert!(frame.lines()[2].contains("end"));
}

#[test]
fn million_row_list_materializes_only_the_visible_viewport() {
    let calls = Rc::new(Cell::new(0));
    let count = calls.clone();
    let mut list = List::new(1_000_000, 12, move |i| {
        count.set(count.get() + 1);
        format!("Row {i}")
    });
    list.viewport((12, 4), (0, 0));
    let frame = paint(&list, 12, 4, true);
    assert_eq!(calls.get(), 4);
    assert_eq!(frame.lines()[3], "Row 3       ");
    assert_eq!(list.event(&key(Key::End)), Response::repaint());
    list.viewport((12, 4), (0, 0));
    let frame = paint(&list, 12, 4, true);
    assert_eq!(calls.get(), 8);
    assert!(frame.lines()[3].contains("999999"));
}

#[test]
fn scrolling_stops_at_either_end() {
    let mut scroll = Scroll::default();
    scroll.viewport((10, 3), (10, 8));
    assert_eq!(scroll.event(&key(Key::Up)), Response::ignore());
    assert_eq!(scroll.event(&key(Key::End)), Response::repaint());
    assert_eq!(scroll.offset, 5);
    assert_eq!(scroll.event(&key(Key::Down)), Response::ignore());
}

#[test]
fn a_lazy_column_waits_for_a_paint_before_scrolling() {
    let mut lazy = Lazy::default();
    assert!(lazy.focusable());
    assert_eq!(lazy.event(&key(Key::Down)), Response::ignore());
    lazy.show(2, 0, 1);
    assert_eq!(lazy.event(&key(Key::End)), Response::ignore());
}

#[test]
fn rich_text_wraps_words_without_splitting_clusters_at_span_boundaries() {
    let bold = Style {
        bold: true,
        ..Style::default()
    };
    let spans = [Span::new("hi e", bold), Span::new("\u{301} world", Style::default())];
    let layout = TextLayout::new(&spans, Some(6), Wrap::Word);
    assert_eq!(layout.size().1, 2);
    let mut frame = Buffer::new(6, 3);
    let area = frame.area();
    let mut canvas = Canvas::new(&mut frame, (0, 0), area, (6, 3), false);
    layout.paint(&mut canvas);
    assert_eq!(frame.cell(3, 0).unwrap().symbol(), "e\u{301}");
    assert!(frame.cell(3, 0).unwrap().style().bold);
    assert_eq!(frame.cell(0, 1).unwrap().symbol(), "w");
}
