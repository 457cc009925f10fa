use wove::query::{background_answered, cursor_answered, cursor_request};
use wove::terminal::{convert, Input, KeyCode, KeyKind, KeyModifiers};
use wove::{Button, Event, Key, Modifiers, Mouse, MouseKind};

fn press(code: KeyCode, modifiers: KeyModifiers) -> Input {
    Input::Key {
        code,
        modifiers,
        kind: KeyKind::Press,
    }
}

#[test]
fn releases_and_unnamed_keys_make_no_event() {
    let release = Input::Key {
        code: KeyCode::Char('a'),
        modifiers: KeyModifiers::default(),
        kind: KeyKind::Release,
    };
    assert_eq!(convert(release), None);
    assert_eq!(convert(press(KeyCode::Other, KeyModifiers::default())), None);
}

#[test]
fn a_back_tab_is_tab_with_shift() {
    assert_eq!(
        convert(press(KeyCode::BackTab, KeyModifiers::default())),
        Some(Event::Key(
            Key::Tab,
            Modifiers {
                shift: true,
                ..Modifiers::default()
            }
        ))
    );
}

#[test]
fn shift_is_part_of_an_uppercase_character() {
    let shift = KeyModifiers {
        shift: true,
        control: true,
        ..KeyModifiers::default()
    };
    assert_eq!(
        convert(press(KeyCode::Char('A'), shift)),
        Some(Event::Key(
            Key::Char('A'),
            Modifiers {
                ctrl: true,
                ..Modifiers::default()
            }
        ))
    );
    assert_eq!(
        convert(press(KeyCode::F(5), shift)),
        Some(Event::Key(
            Key::Function(5),
            Modifiers {
                ctrl: true,
                shift: true,
                ..Modifiers::default()
            }
        ))
    );
}

#[test]
fn mouse_and_window_input_keep_their_values() {
    let input = Input::Mouse {
        column: 3,
        row: 4,
        kind: MouseKind::Drag(Button::Right),
        modifiers: KeyModifiers {
            hyper: true,
            ..KeyModifiers::default()
        },
    };
    assert_eq!(
        convert(input),
        Some(Event::Mouse(Mouse {
            x: 3,
            y: 4,
            kind: MouseKind::Drag(Button::Right),
            modifiers: Modifiers {
                meta: true,
                ..Modifiers::default()
            },
        }))
    );
    assert_eq!(convert(Input::Resize(80, 24)), Some(Event::Resize(80, 24)));
    assert_eq!(convert(Input::FocusLost), Some(Event::WindowFocus(false)));
    assert_eq!(
        convert(Input::Paste("hi".to_string())),
        Some(Event::Paste("hi".to_string()))
    );
}

#[test]
fn replies_are_complete_when_their_answer_has_arrived() {
    assert_eq!(cursor_request(), b"\x1b[6n".to_vec());
    assert!(cursor_answered(b"\x1b[12;40R"));
    assert!(!cursor_answered(b"\x1b[12;4"));
    assert!(background_answered(b"\x1b]11;rgb:0/0/0\x1b\\\x1b[?62c"));
    assert!(!background_answered(b"\x1b]11;rgb:0/0/0c"));
    assert!(!background_answered(b""));
}
