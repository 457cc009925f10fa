use wove::{Active, Park, Surface};

fn leave(surface: Surface) -> String {
    let active = Active {
        park: Park {
            row: Some(3),
            newline: true,
        },
        surface,
    };
    let mut output = Vec::new();
    active.leave(&mut output);
    String::from_utf8(output).unwrap()
}

#[test]
fn restoring_after_a_crash_takes_back_the_title_and_progress() {
    let output = leave(Surface {
        title: true,
        progress: true,
        tmux: false,
    });
    let park = output.find("\r\n").unwrap();
    let pop = output.find("\x1b[23;0t").unwrap();
    let clear = output.find("\x1b]9;4;0;0\x1b\\").unwrap();
    assert!(park < clear && park < pop, "{output:?}");
}

#[test]
fn a_session_that_set_no_title_or_progress_leaves_them_alone() {
    let output = leave(Surface::default());
    assert!(
        !output.contains("23;0t") && !output.contains("]9;"),
        "{output:?}"
    );
}

#[test]
fn leaving_parks_then_clears_progress_then_pops_the_title() {
    let output = leave(Surface {
        title: true,
        progress: true,
        tmux: true,
    });
    assert_eq!(
        output,
        "\r\x1b[3;1H\r\n\x1bPtmux;\x1b\x1b]9;4;0;0\x1b\x1b\\\x1b\\\x1b[23;0t"
    );
}

#[test]
fn a_default_park_moves_nothing() {
    let mut out = Vec::new();
    Park::default().write(&mut out);
    assert!(out.is_empty());
    Park {
        row: None,
        newline: true,
    }
    .write(&mut out);
    assert_eq!(out, b"\r\n");
}
