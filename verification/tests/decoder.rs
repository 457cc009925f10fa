use wove::{Button, Decoder, Event, Key, Modifiers, MouseKind, PASTE_LIMIT};

#[test]
fn packets_preserve_unicode_keys_and_paste() {
    let mut decoder = Decoder::default();
    let mut events = Vec::new();
    for byte in "é\x1b[1;5D\x1b[200~a\n\x03\x1b[A\x1b[201~".bytes() {
        events.extend(decoder.push(&[byte]));
    }
    assert_eq!(
        events,
        vec![
            Key::Char('é').into(),
            Event::Key(
                Key::Left,
                Modifiers {
                    ctrl: true,
                    ..Modifiers::default()
                }
            ),
            Event::Paste("a\n\x03\x1b[A".into())
        ]
    );
}

#[test]
fn escape_waits_for_alt_or_timeout() {
    let mut decoder = Decoder::default();
    assert!(decoder.push(b"\x1b").is_empty());
    assert_eq!(decoder.flush_escape(), vec![Key::Escape.into()]);
    assert_eq!(
        decoder.push(b"\x1bx"),
        vec![Event::Key(
            Key::Char('x'),
            Modifiers {
                alt: true,
                ..Modifiers::default()
            }
        )]
    );
}

#[test]
fn a_huge_paste_arrives_in_order_and_malformed_input_is_dropped() {
    let mut decoder = Decoder::default();
    let body = "é".repeat(PASTE_LIMIT);
    let mut events = decoder.push(b"\x1b[200~");
    events.extend(decoder.push(body.as_bytes()));
    events.extend(decoder.push(b"\x1b[201~x"));
    let pasted: String = events
        .iter()
        .filter_map(|event| match event {
            Event::Paste(text) => Some(text.as_str()),
            _ => None,
        })
        .collect();
    assert_eq!(pasted, body, "chunks never split a character");
    assert!(events.len() > 3);
    assert_eq!(events.last(), Some(&Key::Char('x').into()));
    // A paste of bytes that are not text is cut without walking off its start.
    let mut decoder = Decoder::default();
    decoder.push(b"\x1b[200~");
    let events = decoder.push(&vec![0x80; PASTE_LIMIT + 16]);
    assert!(matches!(events[..], [Event::Paste(_), ..]));
    // A report for a button past the third is not a left click.
    assert!(Decoder::default().push(b"\x1b[<128;1;1M").is_empty());
    // An endless report and invalid UTF-8 are dropped; typing continues.
    let mut decoder = Decoder::default();
    let mut events = decoder.push(format!("\x1b[{}", "1".repeat(80)).as_bytes());
    events.extend(decoder.push(b"\xff"));
    events.extend(decoder.push(b"ok"));
    assert_eq!(
        events[events.len() - 2..],
        [Key::Char('o').into(), Key::Char('k').into()]
    );
}

#[test]
fn alt_with_a_bracket_is_a_key_once_nothing_follows() {
    let mut decoder = Decoder::default();
    assert!(decoder.push(b"\x1b[").is_empty());
    assert!(decoder.escape_pending());
    let alt = Modifiers {
        alt: true,
        ..Modifiers::default()
    };
    assert_eq!(decoder.flush_escape(), [Event::Key(Key::Char('['), alt)]);
    assert_eq!(decoder.push(b"a"), [Key::Char('a').into()]);
    // Bytes that do follow in time still make the report they belong to.
    assert_eq!(decoder.push(b"\x1b[A"), [Key::Up.into()]);
}

#[test]
fn an_escape_before_a_report_is_alt_and_nothing_leaks_as_typing() {
    let alt = Modifiers {
        alt: true,
        ..Modifiers::default()
    };
    let mut decoder = Decoder::default();
    // rxvt and macOS send Alt+Up as Escape before the report.
    assert_eq!(decoder.push(b"\x1b\x1b[A"), [Event::key(Key::Up, alt)]);
    assert_eq!(decoder.push(b"\x1b\x1bOB"), [Event::key(Key::Down, alt)]);
    // Escape then Alt+x, and Alt+Escape once nothing follows.
    assert_eq!(
        decoder.push(b"\x1b\x1bx"),
        [Key::Escape.into(), Event::key(Key::Char('x'), alt)]
    );
    assert!(decoder.push(b"\x1b\x1b").is_empty());
    assert_eq!(decoder.flush_escape(), [Event::key(Key::Escape, alt)]);
    // An escape inside a report abandons it and starts the next one.
    assert_eq!(decoder.push(b"\x1b[1;\x1b[B"), [Key::Down.into()]);
    // The Linux console reports F1 to F5 with a second bracket.
    assert_eq!(
        decoder.push(b"\x1b[[A\x1b[[E"),
        [Key::Function(1).into(), Key::Function(5).into()]
    );
}

#[test]
fn kitty_reports_carry_modifiers_a_legacy_terminal_cannot_send() {
    let mut decoder = Decoder::default();
    // Shift+Enter, Super+v, then a release that must not repeat the key.
    let mut events = decoder.push(b"\x1b[13;2u\x1b[118;9u\x1b[118;9:3u");
    // Keypad Enter is Enter; a media key is not a character.
    assert_eq!(decoder.push(b"\x1b[57414u\x1b[57430u"), [Key::Enter.into()]);
    events.truncate(2);
    assert_eq!(
        events,
        vec![
            Event::Key(
                Key::Enter,
                Modifiers {
                    shift: true,
                    ..Modifiers::default()
                }
            ),
            Event::Key(
                Key::Char('v'),
                Modifiers {
                    meta: true,
                    ..Modifiers::default()
                }
            ),
        ]
    );
}

#[test]
fn kitty_uses_the_shifted_codepoint_without_mistaking_an_omitted_one_for_text() {
    let shift = Modifiers {
        shift: true,
        ..Modifiers::default()
    };
    for (bytes, expected) in [
        (
            b"\x1b[49:33;2u".as_slice(),
            Event::key(Key::Char('!'), shift),
        ),
        (b"\x1b[97:65;2u", Key::Char('A').into()),
        (b"\x1b[49::49;2u", Event::key(Key::Char('1'), shift)),
        (b"\x1b[49:33u", Key::Char('1').into()),
    ] {
        assert_eq!(Decoder::default().push(bytes), [expected]);
    }
    for bytes in [
        b"\x1b[49:27;2u".as_slice(),
        b"\x1b[49:57430;2u",
        b"\x1b[49:1114112;2u",
    ] {
        assert!(Decoder::default().push(bytes).is_empty());
    }
}

#[test]
fn a_paste_after_an_escape_is_a_paste_and_control_characters_are_keys_or_nothing() {
    let mut decoder = Decoder::default();
    assert!(decoder.push(b"\x1b").is_empty());
    let events = decoder.push(b"\x1b[200~text\n\x1b[201~");
    assert_eq!(events, [Key::Escape.into(), Event::Paste("text\n".into())]);
    let ctrl = Modifiers {
        ctrl: true,
        ..Modifiers::default()
    };
    assert_eq!(
        decoder.push(b"\x1c\x1f"),
        [
            Event::key(Key::Char('\\'), ctrl),
            Event::key(Key::Char('_'), ctrl)
        ]
    );
    // A C1 control is not a character anyone typed.
    assert!(decoder.push("\u{85}".as_bytes()).is_empty());
    assert_eq!(decoder.push(b"a"), [Key::Char('a').into()]);
}

#[test]
fn mouse_reports_keep_button_drag_and_modifiers() {
    let mut decoder = Decoder::default();
    let events =
        decoder.push(b"\x1b[<2;5;3M\x1b[<34;6;3M\x1b[<2;6;3m\x1b[<35;7;3M\x1b[<80;1;1M");
    let kinds: Vec<_> = events
        .iter()
        .map(|event| match event {
            Event::Mouse(mouse) => (mouse.x, mouse.kind, mouse.modifiers.ctrl),
            other => panic!("unexpected {other:?}"),
        })
        .collect();
    assert_eq!(
        kinds,
        vec![
            (4, MouseKind::Down(Button::Right), false),
            (5, MouseKind::Drag(Button::Right), false),
            (5, MouseKind::Up(Button::Right), false),
            (6, MouseKind::Move, false),
            (0, MouseKind::ScrollUp, true),
        ]
    );
}
