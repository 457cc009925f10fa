use wove::elements::Select;
use wove::{Color, Decoder, Depth, Element, Event, Key, Modifiers, Rect};

#[test]
fn intersection_is_the_common_area_either_way() {
    let a = Rect::new(2, 1, 5, 4);
    let b = Rect::new(4, 0, 10, 3);
    assert_eq!(a.intersection(b), b.intersection(a));
    assert_eq!(a.intersection(b), Rect::new(4, 1, 3, 2));
    for (x, y) in [(4, 1), (6, 2), (7, 2), (3, 1), (4, 3)] {
        assert_eq!(
            a.intersection(b).contains(x, y),
            a.contains(x, y) && b.contains(x, y)
        );
    }
    assert_eq!(a.intersection(Rect::new(20, 20, 1, 1)).width, 0);
}

#[test]
fn decoding_does_not_depend_on_how_input_is_split() {
    let input = "a\x1b[1;5D\x1b[200~pasted\x1b[201~é\x1b[<0;3;4M".as_bytes();
    for cut in 0..=input.len() {
        let mut whole = Decoder::default();
        let mut parts = Decoder::default();
        let expected = whole.push(input);
        let mut got = parts.push(&input[..cut]);
        got.extend(parts.push(&input[cut..]));
        assert_eq!(got, expected, "cut at {cut}");
    }
}

#[test]
fn a_selection_stays_among_its_items() {
    let mut select = Select::new(vec!["a".into(), "b".into(), "c".into()]);
    let key = |k| Event::Key(k, Modifiers::default());
    select.event(&key(Key::End));
    assert_eq!(select.selected, 2);
    select.event(&key(Key::Down));
    select.event(&key(Key::PageDown));
    assert_eq!(select.selected, 2);
    select.event(&key(Key::Home));
    select.event(&key(Key::Up));
    assert_eq!(select.selected, 0);
}

#[test]
fn a_resolved_color_is_one_the_depth_shows() {
    let color = Color::Rgb(250, 10, 10);
    assert_eq!(Depth::Mono.resolve(color), Color::Default);
    assert_eq!(Depth::Rgb.resolve(color), color);
    assert_eq!(Depth::Basic.resolve(color), Color::Indexed(9));
    match Depth::Indexed.resolve(color) {
        Color::Indexed(n) => assert!(n >= 16),
        other => panic!("{other:?}"),
    }
    assert_eq!(Depth::Basic.resolve(Color::Indexed(200)), Depth::Basic.resolve(Color::Rgb(255, 0, 215)));
}
