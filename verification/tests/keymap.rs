use std::time::Duration;
use wove::keymap::{Keymap, Match, Stroke};
use wove::{Id, Key, Modifiers};

#[test]
fn focused_bindings_override_global_bindings_and_removal_reveals_global() {
    let id = Id(7);
    let mut keys = Keymap::new(Duration::from_millis(300));
    keys.bind(None, [Key::Char('x').into()], "global");
    keys.bind(Some(id), [Key::Char('x').into()], "local");
    assert_eq!(
        keys.feed(Key::Char('x').into(), &[id], Duration::ZERO),
        Match::Command("local")
    );
    keys.remove(id);
    assert_eq!(
        keys.feed(Key::Char('x').into(), &[id], Duration::ZERO),
        Match::Command("global")
    );
}

#[test]
fn ambiguous_sequences_wait_for_timeout_and_focus_changes_clear_pending() {
    let id = Id(9);
    let mut keys = Keymap::new(Duration::from_millis(300));
    keys.bind(None, [Key::Char('g').into()], "single");
    keys.bind(
        None,
        [Key::Char('g').into(), Key::Char('g').into()],
        "double",
    );
    assert_eq!(
        keys.feed(Key::Char('g').into(), &[], Duration::ZERO),
        Match::Pending
    );
    assert_eq!(keys.expire(Duration::from_millis(299)), None);
    assert_eq!(keys.expire(Duration::from_millis(300)), Some("single"));
    keys.feed(Key::Char('g').into(), &[], Duration::ZERO);
    assert_eq!(
        keys.feed(Key::Char('g').into(), &[id], Duration::ZERO),
        Match::Pending
    );
    assert_eq!(
        keys.feed(Key::Char('g').into(), &[id], Duration::ZERO),
        Match::Command("double")
    );
}

#[test]
fn an_empty_sequence_is_refused() {
    let mut keys: Keymap<&str> = Keymap::new(Duration::from_millis(10));
    assert!(!keys.bind(None, [], "nothing"));
    assert_eq!(
        keys.feed(Key::Char('a').into(), &[], Duration::ZERO),
        Match::Unbound
    );
}

#[test]
fn the_newest_binding_of_a_sequence_wins() {
    let mut keys = Keymap::new(Duration::from_millis(10));
    keys.bind(None, [Key::Char('q').into()], "old");
    keys.bind(None, [Key::Char('q').into()], "new");
    assert_eq!(
        keys.feed(Key::Char('q').into(), &[], Duration::ZERO),
        Match::Command("new")
    );
}

#[test]
fn a_broken_sequence_is_retried_from_its_last_stroke() {
    let mut keys = Keymap::new(Duration::from_millis(10));
    keys.bind(None, [Key::Char('g').into(), Key::Char('g').into()], "top");
    keys.bind(None, [Key::Char('x').into()], "cut");
    assert_eq!(
        keys.feed(Key::Char('g').into(), &[], Duration::ZERO),
        Match::Pending
    );
    assert_eq!(keys.deadline(), Some(Duration::from_millis(10)));
    assert_eq!(
        keys.feed(Key::Char('x').into(), &[], Duration::from_millis(1)),
        Match::Command("cut")
    );
    assert_eq!(keys.deadline(), None);
}

#[test]
fn modifiers_are_part_of_a_stroke() {
    let mut keys = Keymap::new(Duration::from_millis(10));
    let ctrl = Stroke {
        key: Key::Char('s'),
        modifiers: Modifiers {
            ctrl: true,
            ..Modifiers::default()
        },
    };
    keys.bind(None, [ctrl], "save");
    assert_eq!(
        keys.feed(Key::Char('s').into(), &[], Duration::ZERO),
        Match::Unbound
    );
    assert_eq!(keys.feed(ctrl, &[], Duration::ZERO), Match::Command("save"));
}
