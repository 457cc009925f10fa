//! Requests to the terminal around the frame: the clipboard, the window
//! title, the bell, and taskbar progress. Each is a pure byte builder, so a
//! transport such as SSH can send the same bytes a local session does.
//!
//! Caller text is never passed through raw: the clipboard is
//! base64-encoded, and a title with control characters is refused.
use crate::output::{decimal, decimal_is_digits, extend, push_decimal};
use crate::scan::{control_free, is_control_free};
use vstd::prelude::*;
use vstd::string::StringSliceAdditionalSpecFns;

verus! {

/// `ESC \`, the string terminator that ends each request.
pub open spec fn terminator() -> Seq<u8> {
    seq![0x1bu8, 0x5c]
}

/// The base64 digit for a six-bit value.
pub open spec fn b64_digit(v: int) -> u8 {
    if v < 26 {
        (65 + v) as u8
    } else if v < 52 {
        (97 + v - 26) as u8
    } else if v < 62 {
        (48 + v - 52) as u8
    } else if v == 62 {
        43u8
    } else {
        47u8
    }
}

/// One group of one to three bytes as four base64 characters, padded with
/// `=` for the bytes it lacks.
pub open spec fn b64_group(g: Seq<u8>) -> Seq<u8> {
    let b0 = g[0] as int;
    let b1 = if g.len() > 1 {
        g[1] as int
    } else {
        0
    };
    let b2 = if g.len() > 2 {
        g[2] as int
    } else {
        0
    };
    let bits = b0 * 65536 + b1 * 256 + b2;
    seq![
        b64_digit(bits / 262144),
        b64_digit((bits / 4096) % 64),
        if g.len() >= 2 {
            b64_digit((bits / 64) % 64)
        } else {
            61u8
        },
        if g.len() >= 3 {
            b64_digit(bits % 64)
        } else {
            61u8
        },
    ]
}

/// Padded base64 (RFC 4648) of some bytes.
pub open spec fn base64_spec(s: Seq<u8>) -> Seq<u8>
    decreases s.len(),
{
    if s.len() == 0 {
        Seq::empty()
    } else if s.len() <= 3 {
        b64_group(s)
    } else {
        b64_group(s.take(3)) + base64_spec(s.skip(3))
    }
}

/// A byte that base64 produces: a letter, a digit, `+`, `/`, or `=`.
pub open spec fn is_b64_byte(b: u8) -> bool {
    (65 <= b <= 90) || (97 <= b <= 122) || (48 <= b <= 57) || b == 43 || b == 47 || b == 61
}

/// Base64 takes four characters for every three bytes, the last group
/// padded, and only characters that cannot end an escape sequence.
pub proof fn base64_shape(s: Seq<u8>)
    ensures
        base64_spec(s).len() == 4 * ((s.len() + 2) / 3),
        forall|i: int| 0 <= i < base64_spec(s).len() ==> is_b64_byte(#[trigger] base64_spec(s)[i]),
    decreases s.len(),
{
    if s.len() > 3 {
        base64_shape(s.skip(3));
        let g = b64_group(s.take(3));
        let rest = base64_spec(s.skip(3));
        assert forall|i: int| 0 <= i < base64_spec(s).len() implies is_b64_byte(
            #[trigger] base64_spec(s)[i],
        ) by {
            if i >= 4 {
                assert(base64_spec(s)[i] == rest[i - 4]);
            }
        }
    }
}

/// tmux's passthrough: the request with every Escape doubled.
pub open spec fn double_escapes(s: Seq<u8>) -> Seq<u8>
    decreases s.len(),
{
    if s.len() == 0 {
        Seq::empty()
    } else {
        double_escapes(s.drop_last()) + if s.last() == 0x1b {
            seq![0x1bu8, 0x1b]
        } else {
            seq![s.last()]
        }
    }
}

/// A request as sent: wrapped for tmux when `tmux` is set.
pub open spec fn passthrough_spec(request: Seq<u8>, tmux: bool) -> Seq<u8> {
    if tmux {
        seq![0x1bu8, 0x50, 0x74, 0x6d, 0x75, 0x78, 0x3b] + double_escapes(request) + terminator()
    } else {
        request
    }
}

/// The bytes that ask for the system clipboard to hold `text` (OSC 52).
pub open spec fn clipboard_spec(text: Seq<u8>, tmux: bool) -> Seq<u8> {
    passthrough_spec(
        seq![0x1bu8, 0x5d, 0x35, 0x32, 0x3b, 0x63, 0x3b] + base64_spec(text) + terminator(),
        tmux,
    )
}

/// The most bytes a title may have.
pub const TITLE_LIMIT: usize = 2048;

/// The bytes that set the title to `text` (OSC 0).
pub open spec fn title_spec(text: Seq<char>, bytes: Seq<u8>) -> Option<Seq<u8>> {
    if bytes.len() <= TITLE_LIMIT && control_free(text) {
        Some(seq![0x1bu8, 0x5d, 0x30, 0x3b] + bytes + terminator())
    } else {
        None
    }
}

/// Wrap a request in tmux's passthrough when `tmux` is set, doubling every
/// escape byte inside the wrapper.
fn passthrough(request: Vec<u8>, tmux: bool) -> (r: Vec<u8>)
    ensures
        r@ == passthrough_spec(request@, tmux),
{
    if !tmux {
        return request;
    }
    let mut wrapped: Vec<u8> = Vec::new();
    extend(&mut wrapped, &[0x1b, 0x50, 0x74, 0x6d, 0x75, 0x78, 0x3b]);
    let ghost head = wrapped@;
    let mut i: usize = 0;
    while i < request.len()
        invariant
            i <= request@.len(),
            wrapped@ == head + double_escapes(request@.take(i as int)),
        decreases request@.len() - i,
    {
        let byte = request[i];
        if byte == 0x1b {
            wrapped.push(0x1b);
        }
        wrapped.push(byte);
        proof {
            assert(request@.take(i + 1).drop_last() =~= request@.take(i as int));
        }
        assert(wrapped@ =~= head + double_escapes(request@.take(i + 1)));
        i += 1;
    }
    assert(request@.take(request@.len() as int) =~= request@);
    extend(&mut wrapped, &[0x1b, 0x5c]);
    assert(wrapped@ =~= passthrough_spec(request@, tmux));
    wrapped
}

fn b64_digit_exec(v: u32) -> (d: u8)
    requires
        v < 64,
    ensures
        d == b64_digit(v as int),
{
    if v < 26 {
        (65 + v) as u8
    } else if v < 52 {
        (97 + v - 26) as u8
    } else if v < 62 {
        (48 + v - 52) as u8
    } else if v == 62 {
        43
    } else {
        47
    }
}

/// Append the base64 group of `g`, one to three bytes.
fn push_group(out: &mut Vec<u8>, g: &[u8], lo: usize, left: usize)
    requires
        1 <= left <= 3,
        lo + left <= g@.len(),
    ensures
        final(out)@ == old(out)@ + b64_group(g@.subrange(lo as int, lo + left)),
{
    let ghost grp = g@.subrange(lo as int, lo + left);
    let b0 = g[lo] as u32;
    let b1 = if left > 1 {
        g[lo + 1] as u32
    } else {
        0
    };
    let b2 = if left > 2 {
        g[lo + 2] as u32
    } else {
        0
    };
    let bits = b0 * 65536 + b1 * 256 + b2;
    assert(bits == grp[0] as int * 65536 + (if grp.len() > 1 {
        grp[1] as int
    } else {
        0
    }) * 256 + (if grp.len() > 2 {
        grp[2] as int
    } else {
        0
    }));
    let d0 = b64_digit_exec(bits / 262144);
    let d1 = b64_digit_exec((bits / 4096) % 64);
    let d2 = if left >= 2 {
        b64_digit_exec((bits / 64) % 64)
    } else {
        61
    };
    let d3 = if left >= 3 {
        b64_digit_exec(bits % 64)
    } else {
        61
    };
    out.push(d0);
    out.push(d1);
    out.push(d2);
    out.push(d3);
    assert(final(out)@ =~= old(out)@ + b64_group(grp));
}

/// Padded base64 of `bytes`.
fn base64(bytes: &[u8]) -> (out: Vec<u8>)
    ensures
        out@ == base64_spec(bytes@),
{
    let mut out: Vec<u8> = Vec::new();
    let mut i: usize = 0;
    let n = bytes.len();
    assert(bytes@.skip(0) =~= bytes@);
    assert(out@ + base64_spec(bytes@) =~= base64_spec(bytes@));
    while i < n
        invariant
            i <= n == bytes@.len(),
            out@ + base64_spec(bytes@.skip(i as int)) == base64_spec(bytes@),
        decreases n - i,
    {
        let left = if n - i >= 3 {
            3
        } else {
            n - i
        };
        let ghost before = out@;
        let ghost rest = bytes@.skip(i as int);
        push_group(&mut out, bytes, i, left);
        proof {
            let grp = bytes@.subrange(i as int, i + left);
            if rest.len() > 3 {
                assert(rest.take(3) =~= grp);
                assert(rest.skip(3) =~= bytes@.skip(i + 3));
            } else {
                assert(rest =~= grp);
                assert(bytes@.skip(i + left) =~= Seq::<u8>::empty());
            }
            assert(before + base64_spec(rest) == base64_spec(bytes@));
            assert(out@ + base64_spec(bytes@.skip(i + left)) =~= before + base64_spec(rest));
        }
        i = i + left;
    }
    assert(bytes@.skip(n as int) =~= Seq::<u8>::empty());
    assert(out@ =~= out@ + base64_spec(bytes@.skip(n as int)));
    out
}

/// The bytes that ask a terminal to put `text` on the system clipboard
/// (OSC 52). Inside tmux the request is wrapped so tmux passes it on; pass
/// whether the `TMUX` environment variable is set. Terminals that do not
/// support the request, or have it turned off, ignore it.
pub fn clipboard(text: &str, tmux: bool) -> (r: Vec<u8>)
    ensures
        r@ == clipboard_spec(text.spec_bytes(), tmux),
{
    let mut request: Vec<u8> = Vec::new();
    extend(&mut request, &[0x1b, 0x5d, 0x35, 0x32, 0x3b, 0x63, 0x3b]);
    let encoded = base64(text.as_bytes());
    extend(&mut request, encoded.as_slice());
    extend(&mut request, &[0x1b, 0x5c]);
    passthrough(request, tmux)
}

/// The bytes that set the window and tab title (OSC 0), or `None` when
/// `text` holds a control character or is longer than 2048 bytes. tmux
/// keeps the title as the pane's own, so the request is never wrapped.
pub fn title(text: &str) -> (r: Option<Vec<u8>>)
    ensures
        match r {
            Some(v) => title_spec(text@, text.spec_bytes()) == Some(v@),
            None => title_spec(text@, text.spec_bytes()) is None,
        },
{
    let bytes = text.as_bytes();
    if bytes.len() > TITLE_LIMIT || !is_control_free(text) {
        return None;
    }
    let mut out: Vec<u8> = Vec::new();
    extend(&mut out, &[0x1b, 0x5d, 0x30, 0x3b]);
    extend(&mut out, text.as_bytes());
    extend(&mut out, &[0x1b, 0x5c]);
    assert(out@ =~= seq![0x1bu8, 0x5d, 0x30, 0x3b] + text.spec_bytes() + terminator());
    assert(title_spec(text@, text.spec_bytes()) == Some(out@));
    Some(out)
}

/// Save the current title on the terminal's title stack (xterm window
/// operations), so that `pop_title` can put it back.
pub fn push_title() -> (r: Vec<u8>)
    ensures
        r@ == seq![0x1bu8, 0x5b, 0x32, 0x32, 0x3b, 0x30, 0x74],
{
    let mut out: Vec<u8> = Vec::new();
    extend(&mut out, &[0x1b, 0x5b, 0x32, 0x32, 0x3b, 0x30, 0x74]);
    out
}

/// Restore the title saved by `push_title`.
pub fn pop_title() -> (r: Vec<u8>)
    ensures
        r@ == seq![0x1bu8, 0x5b, 0x32, 0x33, 0x3b, 0x30, 0x74],
{
    let mut out: Vec<u8> = Vec::new();
    extend(&mut out, &[0x1b, 0x5b, 0x32, 0x33, 0x3b, 0x30, 0x74]);
    out
}

/// The byte that rings the terminal bell (BEL).
pub fn bell() -> (r: Vec<u8>)
    ensures
        r@ == seq![0x07u8],
{
    let mut out: Vec<u8> = Vec::new();
    out.push(0x07);
    assert(out@ =~= seq![0x07u8]);
    out
}

/// Taskbar or tab progress, as terminals that follow ConEmu's OSC 9;4 show
/// it. Percentages above 100 are shown as 100.
#[derive(Clone, Copy, Debug, PartialEq, Eq, Structural)]
pub enum Progress {
    /// Remove the indicator.
    Clear,
    /// Ordinary progress, in percent.
    Normal(u8),
    /// Progress that has failed, usually shown in red.
    Error(u8),
    /// Busy for an unknown time.
    Indeterminate,
    /// Progress that is waiting or warns, usually shown in yellow.
    Paused(u8),
}

/// The state number and percentage OSC 9;4 carries for a progress.
pub open spec fn progress_fields(progress: Progress) -> (nat, nat) {
    match progress {
        Progress::Clear => (0, 0),
        Progress::Normal(p) => (1, p as nat),
        Progress::Error(p) => (2, p as nat),
        Progress::Indeterminate => (3, 0),
        Progress::Paused(p) => (4, p as nat),
    }
}

/// The bytes that show `progress`: `ESC ] 9 ; 4 ; state ; percent ESC \`,
/// the percentage capped at 100.
pub open spec fn progress_spec(progress: Progress, tmux: bool) -> Seq<u8> {
    let (state, percent) = progress_fields(progress);
    let shown: nat = if percent > 100 {
        100
    } else {
        percent
    };
    passthrough_spec(
        seq![0x1bu8, 0x5d, 0x39, 0x3b, 0x34, 0x3b] + decimal(state) + seq![0x3bu8] + decimal(shown)
            + terminator(),
        tmux,
    )
}

/// The bytes that show `progress` (OSC 9;4). Terminals without the request
/// ignore it. Inside tmux it is wrapped so tmux passes it on, as for
/// `clipboard`.
pub fn progress(state: Progress, tmux: bool) -> (r: Vec<u8>)
    ensures
        r@ == progress_spec(state, tmux),
{
    let (code, percent): (u64, u8) = match state {
        Progress::Clear => (0, 0),
        Progress::Normal(p) => (1, p),
        Progress::Error(p) => (2, p),
        Progress::Indeterminate => (3, 0),
        Progress::Paused(p) => (4, p),
    };
    let shown: u64 = if percent > 100 {
        100
    } else {
        percent as u64
    };
    let mut request: Vec<u8> = Vec::new();
    extend(&mut request, &[0x1b, 0x5d, 0x39, 0x3b, 0x34, 0x3b]);
    push_decimal(&mut request, code);
    request.push(0x3b);
    push_decimal(&mut request, shown);
    extend(&mut request, &[0x1b, 0x5c]);
    assert(request@ =~= seq![0x1bu8, 0x5d, 0x39, 0x3b, 0x34, 0x3b] + decimal(code as nat) + seq![
        0x3bu8,
    ] + decimal(shown as nat) + terminator());
    passthrough(request, tmux)
}

} // verus!
