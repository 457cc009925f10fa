use wove::{crop, Buffer, CursorShape, Depth, Inline, Rect, Renderer, Style};

#[test]
fn cropping_never_splits_a_wide_grapheme() {
    let mut row = Buffer::new(6, 1);
    row.write(row.area(), "abc漢d", Style::default());
    assert_eq!(crop(row.row(0), 4).len(), 3);
    assert_eq!(crop(row.row(0), 5).len(), 5);
    assert_eq!(crop(row.row(0), 8).len(), 6);
}

#[test]
fn a_forgotten_cursor_is_shown_again_on_an_unchanged_frame() {
    let mut frame = Buffer::new(4, 1);
    frame.set_cursor(Some((1, 0)));
    frame.set_shape(CursorShape::Bar);
    let mut inline = Inline::new(0, Depth::Rgb);
    inline.draw(&mut Vec::new(), &frame, 3);
    inline.forget_cursor();
    let mut output = Vec::new();
    inline.draw(&mut output, &frame, 3);
    let output = String::from_utf8(output).unwrap();
    assert!(
        output.ends_with("\x1b[6 q\r\x1b[1;2H\x1b[?25h\x1b[?2026l"),
        "{output:?}"
    );
}

#[test]
fn an_unchanged_inline_frame_writes_nothing() {
    let mut frame = Buffer::new(5, 2);
    frame.write(frame.area(), "hello", Style::default());
    let mut inline = Inline::new(4, Depth::Rgb);
    let mut first = Vec::new();
    assert!(inline.draw(&mut first, &frame, 10));
    assert!(!first.is_empty());
    let mut second = Vec::new();
    assert!(!inline.draw(&mut second, &frame, 10));
    assert!(second.is_empty());
}

#[test]
fn the_first_inline_frame_is_written_from_its_anchor() {
    let mut frame = Buffer::new(3, 1);
    frame.write(frame.area(), "ab", Style::default());
    let mut inline = Inline::new(2, Depth::Rgb);
    let bytes = inline.render(&frame, 10).to_vec();
    let text = String::from_utf8(bytes).unwrap();
    assert_eq!(
        text,
        "\x1b[?2026h\x1b[?25l\r\x1b[3;1H\x1b[0mab\x1b[K\x1b[0 q\x1b[?2026l"
    );
}

#[test]
fn a_frame_taller_than_the_screen_scrolls_its_head_away() {
    let mut inline = Inline::new(0, Depth::Rgb);
    let frame = Buffer::new(2, 5);
    inline.draw(&mut Vec::new(), &frame, 3);
    assert_eq!(inline.frame_row(0), Some(2));
    assert_eq!(inline.frame_row(2), Some(4));
    assert_eq!(inline.park(), b"\r\x1b[3;1H\r\n".to_vec());
}

#[test]
fn committed_rows_stay_where_they_are() {
    let mut inline = Inline::new(1, Depth::Rgb);
    let frame = Buffer::new(2, 3);
    inline.draw(&mut Vec::new(), &frame, 10);
    assert_eq!(inline.frame_row(1), Some(0));
    inline.commit(2);
    assert_eq!(inline.frame_row(1), None);
    assert_eq!(inline.frame_row(3), Some(0));
    assert_eq!(inline.frame_row(4), None);
    inline.commit(9);
    assert_eq!(inline.frame_row(4), None);
    assert_eq!(inline.park(), b"\r\x1b[5;1H".to_vec());
}

#[test]
fn parking_before_any_frame_moves_nothing() {
    let inline = Inline::new(7, Depth::Indexed);
    assert!(inline.park().is_empty());
}

#[test]
fn a_renderer_writes_only_the_changed_cells() {
    let mut renderer = Renderer::default();
    let mut frame = Buffer::new(4, 2);
    frame.write(frame.area(), "ab", Style::default());
    let first = renderer.render(&frame).to_vec();
    assert_eq!(
        String::from_utf8(first).unwrap(),
        "\x1b[?2026h\x1b[?25l\x1b[1;1H\x1b[0mab\x1b[K\x1b[2;1H\x1b[K\x1b[0 q\x1b[?2026l"
    );
    frame.write(frame.area(), "ax", Style::default());
    let second = renderer.render(&frame).to_vec();
    assert_eq!(
        String::from_utf8(second).unwrap(),
        "\x1b[?2026h\x1b[?25l\x1b[1;2H\x1b[0mx\x1b[?2026l"
    );
    assert!(renderer.render(&frame).is_empty());
}

#[test]
fn an_invalidated_renderer_writes_every_row_again() {
    let mut renderer = Renderer::with_depth(Depth::Basic);
    let frame = Buffer::new(2, 1);
    let mut out = Vec::new();
    renderer.draw(&mut out, &frame);
    let first = out.clone();
    renderer.invalidate();
    out.clear();
    renderer.draw(&mut out, &frame);
    assert_eq!(out, first);
}

#[test]
fn unchanged_frames_emit_nothing_and_failed_output_forces_a_full_repaint() {
    let mut renderer = Renderer::default();
    let mut frame = Buffer::new(8, 1);
    frame.write(frame.area(), "hello", Style::default());
    let mut output = Vec::new();
    renderer.draw(&mut output, &frame);
    assert!(!output.is_empty());
    output.clear();
    renderer.draw(&mut output, &frame);
    assert!(output.is_empty());
    frame.write(Rect::new(0, 0, 1, 1), "H", Style::default());
    let broken = |_: &[u8]| -> Result<(), String> { Err("disconnected".to_string()) };
    assert!(renderer.send(&frame, broken).is_err());
    renderer.draw(&mut output, &frame);
    assert!(String::from_utf8(output).unwrap().contains("Hello"));
}

#[test]
fn overwriting_a_wide_continuation_erases_the_entire_glyph() {
    let mut b = Buffer::new(4, 1);
    let area = b.area();
    b.write(area, "界x", Style::default());
    b.write(Rect::new(1, 0, 3, 1), "a", Style::default());
    assert_eq!(b.cell(0, 0).unwrap().symbol(), " ");
    assert_eq!(b.cell(1, 0).unwrap().symbol(), "a");
    assert_eq!(b.cell(2, 0).unwrap().symbol(), "x");
}
