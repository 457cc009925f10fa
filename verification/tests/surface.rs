use wove::surface::{bell, clipboard, pop_title, progress, push_title, title, Progress};

#[test]
fn requests_carry_padded_base64_and_tmux_wraps_them() {
    assert_eq!(clipboard("hi", false), b"\x1b]52;c;aGk=\x1b\\");
    assert_eq!(clipboard("hey", false), b"\x1b]52;c;aGV5\x1b\\");
    assert_eq!(
        clipboard("h", true),
        b"\x1bPtmux;\x1b\x1b]52;c;aA==\x1b\x1b\\\x1b\\"
    );
}

#[test]
fn a_title_that_could_end_its_sequence_is_refused() {
    assert_eq!(
        title("build · 3/5").unwrap(),
        "\x1b]0;build · 3/5\x1b\\".as_bytes()
    );
    for hostile in ["a\x1b\\b", "a\x07b", "a\nb", "a\u{9c}b"] {
        assert_eq!(title(hostile), None, "{hostile:?}");
    }
    assert!(title(&"x".repeat(2048)).is_some());
    assert_eq!(title(&"x".repeat(2049)), None);
}

#[test]
fn progress_states_follow_osc_9_4_and_cap_at_one_hundred() {
    assert_eq!(
        progress(Progress::Normal(40), false),
        b"\x1b]9;4;1;40\x1b\\"
    );
    assert_eq!(
        progress(Progress::Error(250), false),
        b"\x1b]9;4;2;100\x1b\\"
    );
    assert_eq!(
        progress(Progress::Indeterminate, false),
        b"\x1b]9;4;3;0\x1b\\"
    );
    assert_eq!(progress(Progress::Paused(7), false), b"\x1b]9;4;4;7\x1b\\");
    assert_eq!(progress(Progress::Clear, false), b"\x1b]9;4;0;0\x1b\\");
    assert_eq!(
        progress(Progress::Clear, true),
        b"\x1bPtmux;\x1b\x1b]9;4;0;0\x1b\x1b\\\x1b\\"
    );
}

#[test]
fn base64_pads_every_remainder() {
    assert_eq!(clipboard("", false), b"\x1b]52;c;\x1b\\");
    assert_eq!(clipboard("abcd", false), b"\x1b]52;c;YWJjZA==\x1b\\");
    assert_eq!(clipboard("abcde", false), b"\x1b]52;c;YWJjZGU=\x1b\\");
    assert_eq!(clipboard("abcdef", false), b"\x1b]52;c;YWJjZGVm\x1b\\");
}

#[test]
fn tmux_doubles_every_escape_it_passes_on() {
    assert_eq!(
        clipboard("\x1b", true),
        b"\x1bPtmux;\x1b\x1b]52;c;Gw==\x1b\x1b\\\x1b\\"
    );
}

#[test]
fn title_stack_and_bell_bytes() {
    assert_eq!(push_title(), b"\x1b[22;0t");
    assert_eq!(pop_title(), b"\x1b[23;0t");
    assert_eq!(bell(), b"\x07");
    assert_eq!(title("").unwrap(), b"\x1b]0;\x1b\\");
}
