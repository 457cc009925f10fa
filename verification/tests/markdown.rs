use wove::markdown::{render, render_events, MdEnd, MdEvent, MdTag, Palette};
use wove::{Buffer, Canvas, Color, Rect, Style, TextLayout, Wrap, Span};

#[test]
fn markdown_keeps_nested_style_and_link_destination() {
    let rich = render(
        "**bold *nested* end** [label](https://example.com)",
        Palette::default(),
    );
    let nested = rich.spans.iter().find(|s| s.text == "nested").unwrap();
    assert!(nested.style.bold && nested.style.italic);
    let end = rich.spans.iter().find(|s| s.text == " end").unwrap();
    assert!(end.style.bold && !end.style.italic);
    let label = rich.spans.iter().find(|s| s.text == "label").unwrap();
    assert_eq!(label.link.as_deref(), Some("https://example.com"));
    assert!(rich
        .spans
        .iter()
        .any(|s| s.text == " (https://example.com)"));
}

fn plain(source: &str) -> String {
    render(source, Palette::default())
        .spans
        .iter()
        .map(|s| s.text.as_str())
        .collect()
}

#[test]
fn list_items_take_one_row_each_with_nested_items_indented() {
    assert_eq!(plain("- a\n  - b\n- c"), "• a\n  • b\n• c");
    assert_eq!(plain("1. a\n2. b"), "1. a\n2. b");
}

#[test]
fn loose_list_items_are_separated_by_one_blank_row() {
    assert_eq!(plain("- a\n\n- b"), "• a\n\n• b");
}

#[test]
fn blocks_are_separated_by_one_blank_row_and_nothing_trails_the_last() {
    assert_eq!(
        plain("# Title\n\n```\ncode\n```\n\ntext\n"),
        "Title\n\ncode\n\ntext"
    );
    assert_eq!(plain("- a\n\nafter"), "• a\n\nafter");
}

#[test]
fn a_link_that_shows_its_destination_does_not_repeat_it() {
    assert_eq!(plain("<https://example.com>"), "https://example.com");
}

#[test]
fn headings_and_code_take_the_palette_styles() {
    let mut palette = Palette::default();
    palette.heading.bold = true;
    palette.code.fg = Color::Indexed(2);
    let rich = render("# Head\n\nsay `x`", palette);
    let head = rich.spans.iter().find(|s| s.text == "Head").unwrap();
    assert!(head.style.bold);
    let code = rich.spans.iter().find(|s| s.text == "x").unwrap();
    assert_eq!(code.style.fg, Color::Indexed(2));
    assert_eq!(rich.wrap, Wrap::Word);
}

#[test]
fn ordered_lists_count_from_their_start() {
    assert_eq!(plain("3. a\n4. b"), "3. a\n4. b");
}

#[test]
fn rules_and_quotes_lead_their_blocks() {
    assert_eq!(plain("> q"), "│ q");
    assert_eq!(plain("a\n\n---\n\nb"), "a\n\n────\n\nb");
}

#[test]
fn events_render_without_a_parser() {
    let events = vec![
        MdEvent::Start(MdTag::Other),
        MdEvent::Text("hi".to_string()),
        MdEvent::SoftBreak,
        MdEvent::Text("there".to_string()),
        MdEvent::End(MdEnd::Paragraph),
    ];
    let rich = render_events(&events, Palette::default());
    let text: String = rich.spans.iter().map(|s| s.text.as_str()).collect();
    assert_eq!(text, "hi there");
}

#[test]
fn word_wrap_breaks_a_word_that_cannot_fit_by_grapheme() {
    let spans = [Span::new(" bcd界", Style::default())];
    let layout = TextLayout::new(&spans, Some(4), Wrap::Word);
    assert!(layout.size().0 <= 4);
    assert_eq!(layout.size().1, 3);
}

#[test]
fn clipped_text_leaves_a_wide_grapheme_outside_the_clip_alone() {
    let mut frame = Buffer::new(4, 1);
    let area = frame.area();
    frame.write(area, "界", Style::default());
    let clip = Rect { x: 1, y: 0, width: 3, height: 1 };
    let mut canvas = Canvas::new(&mut frame, (0, 0), clip, (4, 1), false);
    canvas.text(1, 0, "a", Style::default());
    assert_eq!(frame.cell(0, 0).unwrap().symbol(), "界");
    assert_eq!(frame.cell(1, 0).unwrap().symbol(), "");
    let mut canvas = Canvas::new(&mut frame, (0, 0), clip, (4, 1), false);
    canvas.text(2, 0, "ab", Style::default());
    assert_eq!(frame.cell(2, 0).unwrap().symbol(), "a");
    assert_eq!(frame.cell(3, 0).unwrap().symbol(), "b");
    assert_eq!(frame.cell(0, 0).unwrap().symbol(), "界");
}

#[test]
fn link_text_carries_its_destination_and_other_text_none() {
    let rich = render("see [a `b`](x) c", Palette::default());
    let a = rich.spans.iter().find(|s| s.text == "a ").unwrap();
    assert_eq!(a.link.as_deref(), Some("x"));
    let b = rich.spans.iter().find(|s| s.text == "b").unwrap();
    assert_eq!(b.link.as_deref(), Some("x"));
    let tail = rich.spans.iter().find(|s| s.text == " (x)").unwrap();
    assert!(tail.link.is_none());
    let see = rich.spans.iter().find(|s| s.text == "see ").unwrap();
    assert!(see.link.is_none());
    let plain = wove::Span::link("t", wove::Style::default(), "u");
    assert_eq!(plain.link.as_deref(), Some("u"));
    assert!(wove::Span::new("t", wove::Style::default()).link.is_none());
}
