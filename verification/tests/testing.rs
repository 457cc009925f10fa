use std::time::Duration;
use wove::testing::{diff, snapshot, Clock, Recorder};
use wove::{Buffer, Depth, Style};

#[test]
fn recorder_retains_style_changes_but_not_identical_frames() {
    let mut recorder = Recorder::default();
    let mut frame = Buffer::new(1, 1);
    recorder.record(Duration::ZERO, &frame);
    recorder.record(Duration::from_secs(1), &frame);
    frame.write(
        frame.area(),
        " ",
        Style {
            bold: true,
            ..Default::default()
        },
    );
    recorder.record(Duration::from_secs(2), &frame);
    assert_eq!(recorder.frames().len(), 2);
    assert!(recorder.frames()[1].1.cell(0, 0).unwrap().style().bold);
    recorder.clear();
    assert!(recorder.frames().is_empty());
}

#[test]
fn a_clock_moves_only_when_advanced() {
    let mut clock = Clock::default();
    assert_eq!(clock.now(), Duration::ZERO);
    clock.advance(Duration::from_secs(2));
    clock.advance(Duration::from_millis(500));
    assert_eq!(clock.now(), Duration::from_millis(2500));
    clock.advance(Duration::MAX);
    assert_eq!(clock.now(), Duration::MAX);
}

#[test]
fn a_snapshot_drops_trailing_blanks_and_names_the_cursor() {
    let mut frame = Buffer::new(6, 4);
    frame.write(frame.area(), "ab  ", Style::default());
    let mut second = Buffer::new(6, 1);
    second.write(second.area(), "x", Style::default());
    assert_eq!(snapshot(&frame), "ab\n@cursor none\n");
    frame.set_cursor(Some((12, 3)));
    assert_eq!(snapshot(&frame), "ab\n@cursor 12,3\n");
    assert_eq!(snapshot(&Buffer::new(3, 2)), "@cursor none\n");
    assert_eq!(snapshot(&second), "x\n@cursor none\n");
}

#[test]
fn a_wide_grapheme_is_written_once() {
    let mut frame = Buffer::new(4, 2);
    frame.write(frame.area(), "漢a", Style::default());
    assert_eq!(snapshot(&frame), "漢a\n@cursor none\n");
}

#[test]
fn equal_snapshots_have_no_diff() {
    assert_eq!(diff("a\nb\n", "a\nb\n"), None);
}

#[test]
fn a_diff_shows_context_and_both_sides() {
    let report = diff("1\n2\n3\n4\n5\n", "1\n2\n3\nX\n5\n").unwrap();
    assert_eq!(
        report,
        "frames differ at line 4\n    2 |2\n    3 |3\n-   4 |4\n-   5 |5\n-   6 |\n+   4 |X\n+   5 |5\n+   6 |\n"
    );
}

#[test]
fn a_side_that_ended_shows_end() {
    let report = diff("a\n", "a").unwrap();
    assert_eq!(
        report,
        "frames differ at line 2\n    1 |a\n-   2 |\n+     (end)\n"
    );
}

#[test]
fn the_environment_picks_a_color_depth() {
    let env = |pairs: &'static [(&'static str, &'static str)]| {
        move |name: &str| {
            pairs
                .iter()
                .find(|(key, _)| *key == name)
                .map(|(_, value)| value.to_string())
        }
    };
    assert_eq!(Depth::from_env(env(&[("NO_COLOR", "1"), ("COLORTERM", "truecolor")])), Depth::Mono);
    assert_eq!(Depth::from_env(env(&[("TERM", "dumb")])), Depth::Mono);
    assert_eq!(Depth::from_env(env(&[("COLORTERM", "24bit"), ("TERM", "xterm")])), Depth::Rgb);
    assert_eq!(Depth::from_env(env(&[("TERM", "xterm-Kitty")])), Depth::Rgb);
    assert_eq!(Depth::from_env(env(&[("TERM", "xterm-256color"), ("TERM_PROGRAM", "WezTerm")])), Depth::Rgb);
    assert_eq!(Depth::from_env(env(&[("TERM", "linux")])), Depth::Basic);
    assert_eq!(Depth::from_env(env(&[])), Depth::Basic);
    assert_eq!(Depth::from_env(env(&[("TERM", "screen-256color")])), Depth::Indexed);
    assert_eq!(Depth::from_env(env(&[("NO_COLOR", "")])), Depth::Basic);
}
