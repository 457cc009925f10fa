//! Replies the terminal sends on stdin to questions about itself: where the
//! cursor is, and what color its background has. Asking is I/O; reading the
//! reply is here.
use crate::scan::{parse_number, parse_number_exec, split, split_ranges, utf8_status, utf8_status_exec, Utf8};
use vstd::prelude::*;

verus! {

/// The last position where `x` is followed by `y`.
pub open spec fn rfind_pair(s: Seq<u8>, x: u8, y: u8) -> Option<int>
    decreases s.len(),
{
    if s.len() < 2 {
        None
    } else if s[s.len() - 2] == x && s[s.len() - 1] == y {
        Some(s.len() - 2)
    } else {
        rfind_pair(s.drop_last(), x, y)
    }
}

/// The last position of `x`.
pub open spec fn rfind(s: Seq<u8>, x: u8) -> Option<int>
    decreases s.len(),
{
    if s.len() == 0 {
        None
    } else if s.last() == x {
        Some(s.len() - 1)
    } else {
        rfind(s.drop_last(), x)
    }
}

/// The first position of `x`.
pub open spec fn find(s: Seq<u8>, x: u8) -> Option<int>
    decreases s.len(),
{
    if s.len() == 0 {
        None
    } else {
        match find(s.drop_last(), x) {
            Some(i) => Some(i),
            None => if s.last() == x {
                Some(s.len() - 1)
            } else {
                None
            },
        }
    }
}

/// A cursor position report, `ESC [ row ; column R`, one-based, read as a
/// zero-based `(column, row)`: the last report in the reply, amid any noise.
pub open spec fn parse_cursor_spec(reply: Seq<u8>) -> Option<(u16, u16)> {
    if utf8_status(reply) != Utf8::Valid {
        None
    } else {
        match (rfind_pair(reply, 0x1b, 0x5b), rfind(reply, 0x52)) {
            (Some(e), Some(r)) => if e + 2 > r {
                None
            } else {
                let body = reply.subrange(e + 2, r);
                match find(body, 0x3b) {
                    Some(k) => match (
                        parse_number(body.skip(k + 1), 65535),
                        parse_number(body.take(k), 65535),
                    ) {
                        (Some(column), Some(row)) => if column >= 1 && row >= 1 {
                            Some(((column - 1) as u16, (row - 1) as u16))
                        } else {
                            None
                        },
                        _ => None,
                    },
                    None => None,
                }
            },
            _ => None,
        }
    }
}

fn rfind_pair_exec(s: &[u8], x: u8, y: u8) -> (r: Option<usize>)
    ensures
        match r {
            Some(i) => i + 2 <= s@.len() && rfind_pair(s@, x, y) == Some(i as int),
            None => rfind_pair(s@, x, y) is None,
        },
{
    let mut n = s.len();
    assert(s@.take(n as int) =~= s@);
    while n >= 2
        invariant
            n <= s@.len(),
            rfind_pair(s@, x, y) == rfind_pair(s@.take(n as int), x, y),
        decreases n,
    {
        let ghost t = s@.take(n as int);
        if s[n - 2] == x && s[n - 1] == y {
            return Some(n - 2);
        }
        assert(t.drop_last() =~= s@.take(n - 1));
        n = n - 1;
    }
    None
}

fn rfind_exec(s: &[u8], lo: usize, hi: usize, x: u8) -> (r: Option<usize>)
    requires
        lo <= hi <= s@.len(),
    ensures
        match r {
            Some(i) => lo <= i < hi && rfind(s@.subrange(lo as int, hi as int), x) == Some(i - lo),
            None => rfind(s@.subrange(lo as int, hi as int), x) is None,
        },
{
    let mut n = hi;
    while n > lo
        invariant
            lo <= n <= hi <= s@.len(),
            rfind(s@.subrange(lo as int, hi as int), x) == rfind(s@.subrange(lo as int, n as int), x),
        decreases n,
    {
        let ghost t = s@.subrange(lo as int, n as int);
        if s[n - 1] == x {
            return Some(n - 1);
        }
        assert(t.drop_last() =~= s@.subrange(lo as int, n - 1));
        n = n - 1;
    }
    None
}

fn find_exec(s: &[u8], lo: usize, hi: usize, x: u8) -> (r: Option<usize>)
    requires
        lo <= hi <= s@.len(),
    ensures
        match r {
            Some(i) => lo <= i < hi && find(s@.subrange(lo as int, hi as int), x) == Some(i - lo),
            None => find(s@.subrange(lo as int, hi as int), x) is None,
        },
{
    let mut i = lo;
    while i < hi
        invariant
            lo <= i <= hi <= s@.len(),
            find(s@.subrange(lo as int, i as int), x) is None,
        decreases hi - i,
    {
        assert(s@.subrange(lo as int, i + 1).drop_last() =~= s@.subrange(lo as int, i as int));
        if s[i] == x {
            proof {
                find_extends(s@.subrange(lo as int, i + 1), s@.subrange(lo as int, hi as int), x);
            }
            return Some(i);
        }
        i = i + 1;
    }
    None
}

/// The first position of `x` in a prefix is its first position in the whole.
pub proof fn find_extends(a: Seq<u8>, b: Seq<u8>, x: u8)
    requires
        a.len() <= b.len(),
        a =~= b.take(a.len() as int),
        find(a, x) is Some,
    ensures
        find(b, x) == find(a, x),
    decreases b.len(),
{
    if b.len() > a.len() {
        assert(a =~= b.drop_last().take(a.len() as int));
        find_extends(a, b.drop_last(), x);
    } else {
        assert(a =~= b);
    }
}

/// Read a cursor position report: `ESC [ row ; column R`, one-based,
/// returned as a zero-based `(column, row)`.
pub fn parse_cursor(reply: &[u8]) -> (r: Option<(u16, u16)>)
    ensures
        r == parse_cursor_spec(reply@),
{
    let n = reply.len();
    assert(reply@.subrange(0, n as int) =~= reply@);
    if utf8_status_exec(reply, 0, n) != Utf8::Valid {
        return None;
    }
    let e = match rfind_pair_exec(reply, 0x1b, 0x5b) {
        Some(e) => e,
        None => return None,
    };
    let r = match rfind_exec(reply, 0, n, 0x52) {
        Some(r) => r,
        None => return None,
    };
    if e + 2 > r {
        return None;
    }
    let lo = e + 2;
    let ghost body = reply@.subrange(lo as int, r as int);
    let k = match find_exec(reply, lo, r, 0x3b) {
        Some(k) => k,
        None => return None,
    };
    assert(reply@.subrange(k + 1, r as int) =~= body.skip(k - lo + 1));
    assert(reply@.subrange(lo as int, k as int) =~= body.take(k - lo));
    let column = parse_number_exec(reply, k + 1, r, 65535);
    let row = parse_number_exec(reply, lo, k, 65535);
    match (column, row) {
        (Some(column), Some(row)) => if column >= 1 && row >= 1 {
            Some(((column - 1) as u16, (row - 1) as u16))
        } else {
            None
        },
        _ => None,
    }
}

/// `]11;rgb:`, which leads a background color report.
pub open spec fn rgb_marker() -> Seq<u8> {
    seq![0x5du8, 0x31, 0x31, 0x3b, 0x72, 0x67, 0x62, 0x3a]
}

/// The first position where `pat` occurs.
pub open spec fn find_seq(s: Seq<u8>, pat: Seq<u8>) -> Option<int>
    decreases s.len(),
{
    if s.len() == 0 || s.len() < pat.len() {
        None
    } else {
        match find_seq(s.drop_last(), pat) {
            Some(i) => Some(i),
            None => if s.skip(s.len() - pat.len()) == pat {
                Some(s.len() - pat.len())
            } else {
                None
            },
        }
    }
}

pub open spec fn is_hex_digit(b: u8) -> bool {
    (48 <= b <= 57) || (65 <= b <= 70) || (97 <= b <= 102)
}

pub open spec fn hex_digit_value(b: u8) -> nat {
    if b <= 57 {
        (b - 48) as nat
    } else if b <= 70 {
        (b - 55) as nat
    } else {
        (b - 87) as nat
    }
}

/// The leading hexadecimal digits of `s`, at most `limit` of them.
pub open spec fn hex_prefix_len(s: Seq<u8>, limit: nat) -> nat
    decreases limit,
{
    if limit == 0 || s.len() == 0 || !is_hex_digit(s[0]) {
        0
    } else {
        1 + hex_prefix_len(s.skip(1), (limit - 1) as nat)
    }
}

pub open spec fn hex_value(d: Seq<u8>) -> nat
    decreases d.len(),
{
    if d.len() == 0 {
        0
    } else {
        hex_value(d.drop_last()) * 16 + hex_digit_value(d.last())
    }
}

/// The largest value of `n` hexadecimal digits.
pub open spec fn hex_max(n: nat) -> nat
    decreases n,
{
    if n == 0 {
        0
    } else {
        hex_max((n - 1) as nat) * 16 + 15
    }
}

/// One channel of `rgb:RRRR/GGGG/BBBB`: one to four hex digits, scaled to
/// eight bits.
pub open spec fn channel_spec(p: Seq<u8>) -> Option<u8> {
    let n = hex_prefix_len(p, 4);
    if n == 0 {
        None
    } else {
        Some((hex_value(p.take(n as int)) * 255 / hex_max(n)) as u8)
    }
}

/// A background color report, `ESC ] 11 ; rgb:RRRR/GGGG/BBBB`, with one
/// to four hex digits per channel.
pub open spec fn parse_background_spec(reply: Seq<u8>) -> Option<(u8, u8, u8)> {
    match find_seq(reply, rgb_marker()) {
        Some(i) => {
            let parts = split(reply.skip(i + 8), 0x2f);
            if parts.len() < 3 {
                None
            } else {
                match (channel_spec(parts[0]), channel_spec(parts[1]), channel_spec(parts[2])) {
                    (Some(r), Some(g), Some(b)) => Some((r, g, b)),
                    _ => None,
                }
            }
        },
        None => None,
    }
}

/// Whether `s[start..start + pat.len()]` is `pat`.
fn window_is(s: &[u8], start: usize, pat: &[u8]) -> (r: bool)
    requires
        start + pat@.len() <= s@.len(),
    ensures
        r == (s@.subrange(start as int, start + pat@.len()) == pat@),
{
    let mut k: usize = 0;
    let n = s.len();
    while k < pat.len()
        invariant
            k <= pat@.len(),
            n == s@.len(),
            start + pat@.len() <= s@.len(),
            s@.subrange(start as int, start + k) == pat@.take(k as int),
        decreases pat@.len() - k,
    {
        if s[start + k] != pat[k] {
            assert(s@.subrange(start as int, start + pat@.len())[k as int] != pat@[k as int]);
            return false;
        }
        assert(s@.subrange(start as int, start + k + 1) =~= pat@.take(k + 1));
        k = k + 1;
    }
    assert(pat@.take(pat@.len() as int) =~= pat@);
    true
}

/// The first position of `pat`, which is not empty.
fn find_seq_exec(s: &[u8], pat: &[u8]) -> (r: Option<usize>)
    requires
        pat@.len() > 0,
    ensures
        match r {
            Some(i) => i + pat@.len() <= s@.len() && find_seq(s@, pat@) == Some(i as int),
            None => find_seq(s@, pat@) is None,
        },
{
    let m = pat.len();
    let n = s.len();
    let mut e: usize = 0;
    assert(s@.take(0) =~= Seq::<u8>::empty());
    while e < n
        invariant
            e <= n == s@.len(),
            m == pat@.len() > 0,
            find_seq(s@.take(e as int), pat@) is None,
        decreases n - e,
    {
        let ghost t = s@.take(e + 1);
        assert(t.drop_last() =~= s@.take(e as int));
        if e + 1 >= m {
            let start = e + 1 - m;
            if window_is(s, start, pat) {
                assert(t.skip(t.len() - m) =~= s@.subrange(start as int, start + m));
                proof {
                    find_seq_extends(t, s@, pat@);
                }
                return Some(start);
            }
            assert(t.skip(t.len() - m) =~= s@.subrange(start as int, start + m));
        }
        e = e + 1;
    }
    assert(s@.take(n as int) =~= s@);
    None
}

/// A first occurrence in a prefix is the first occurrence in the whole.
pub proof fn find_seq_extends(a: Seq<u8>, b: Seq<u8>, pat: Seq<u8>)
    requires
        a.len() <= b.len(),
        a =~= b.take(a.len() as int),
        find_seq(a, pat) is Some,
    ensures
        find_seq(b, pat) == find_seq(a, pat),
    decreases b.len(),
{
    if b.len() > a.len() {
        assert(a =~= b.drop_last().take(a.len() as int));
        find_seq_extends(a, b.drop_last(), pat);
    } else {
        assert(a =~= b);
    }
}

fn hex_max_exec(n: usize) -> (m: u32)
    requires
        1 <= n <= 4,
    ensures
        m == hex_max(n as nat),
        m >= 15,
{
    reveal_with_fuel(hex_max, 5);
    if n == 1 {
        15
    } else if n == 2 {
        255
    } else if n == 3 {
        4095
    } else {
        65535
    }
}

/// One channel of a color report, from `s[lo..hi]`.
fn channel(s: &[u8], lo: usize, hi: usize) -> (r: Option<u8>)
    requires
        lo <= hi <= s@.len(),
    ensures
        r == channel_spec(s@.subrange(lo as int, hi as int)),
{
    let ghost p = s@.subrange(lo as int, hi as int);
    let mut k: usize = 0;
    let mut value: u32 = 0;
    assert(p.skip(0) =~= p);
    assert(p.take(0) =~= Seq::<u8>::empty());
    while k < 4 && lo + k < hi && is_hex_exec(s[lo + k])
        invariant
            k <= 4,
            lo + k <= hi <= s@.len(),
            p == s@.subrange(lo as int, hi as int),
            hex_prefix_len(p, 4) == k + hex_prefix_len(p.skip(k as int), (4 - k) as nat),
            value == hex_value(p.take(k as int)),
            value <= hex_max(k as nat),
        decreases 4 - k,
    {
        let d = hex_digit_exec(s[lo + k]);
        proof {
            reveal_with_fuel(hex_max, 5);
            assert(p.skip(k as int).skip(1) =~= p.skip(k + 1));
            assert(p.skip(k as int)[0] == s@[lo + k]);
            assert(p.take(k + 1).drop_last() =~= p.take(k as int));
        }
        value = value * 16 + d;
        k = k + 1;
    }
    proof {
        assert(hex_prefix_len(p.skip(k as int), (4 - k) as nat) == 0) by {
            if k < 4 && lo + k < hi {
                assert(p.skip(k as int)[0] == s@[lo + k]);
            }
        }
    }
    if k == 0 {
        return None;
    }
    let max = hex_max_exec(k);
    proof {
        reveal_with_fuel(hex_max, 5);
    }
    assert((value as int) * 255 / (max as int) <= 255) by (nonlinear_arith)
        requires
            value <= max,
            max >= 15,
    ;
    Some((value * 255 / max) as u8)
}

fn is_hex_exec(b: u8) -> (r: bool)
    ensures
        r == is_hex_digit(b),
{
    (48 <= b && b <= 57) || (65 <= b && b <= 70) || (97 <= b && b <= 102)
}

fn hex_digit_exec(b: u8) -> (v: u32)
    requires
        is_hex_digit(b),
    ensures
        v == hex_digit_value(b),
        v < 16,
{
    if b <= 57 {
        (b - 48) as u32
    } else if b <= 70 {
        (b - 55) as u32
    } else {
        (b - 87) as u32
    }
}

/// Read a background color report, `ESC ] 11 ; rgb:RRRR/GGGG/BBBB`, with
/// one to four hex digits per channel, scaled to eight bits.
pub fn parse_background(reply: &[u8]) -> (r: Option<(u8, u8, u8)>)
    ensures
        r == parse_background_spec(reply@),
{
    let i = match find_seq_exec(reply, &[0x5d, 0x31, 0x31, 0x3b, 0x72, 0x67, 0x62, 0x3a]) {
        Some(i) => i,
        None => return None,
    };
    let n = reply.len();
    assert(reply@.subrange(i + 8, n as int) =~= reply@.skip(i + 8));
    let parts = split_ranges(reply, i + 8, n, 0x2f);
    if parts.len() < 3 {
        return None;
    }
    let r = channel(reply, parts[0].0, parts[0].1);
    let g = channel(reply, parts[1].0, parts[1].1);
    let b = channel(reply, parts[2].0, parts[2].1);
    match (r, g, b) {
        (Some(r), Some(g), Some(b)) => Some((r, g, b)),
        _ => None,
    }
}

/// The most reply bytes read before giving up on a question.
pub const REPLY_LIMIT: usize = 256;

/// The question for the cursor position: `ESC [ 6 n`.
pub fn cursor_request() -> (r: Vec<u8>)
    ensures
        r@ == seq![0x1bu8, 0x5b, 0x36, 0x6e],
{
    let r: Vec<u8> = vec![0x1b, 0x5b, 0x36, 0x6e];
    assert(r@ =~= seq![0x1bu8, 0x5b, 0x36, 0x6e]);
    r
}

/// The question for the background color, `ESC ] 11 ; ? ESC \`, then the
/// device-attributes request `ESC [ c`. Terminals that do not know the
/// first question still answer the second, which ends the wait early.
pub fn background_request() -> (r: Vec<u8>)
    ensures
        r@ == seq![0x1bu8, 0x5d, 0x31, 0x31, 0x3b, 0x3f, 0x1b, 0x5c, 0x1b, 0x5b, 0x63],
{
    let r: Vec<u8> = vec![0x1b, 0x5d, 0x31, 0x31, 0x3b, 0x3f, 0x1b, 0x5c, 0x1b, 0x5b, 0x63];
    assert(r@ =~= seq![0x1bu8, 0x5d, 0x31, 0x31, 0x3b, 0x3f, 0x1b, 0x5c, 0x1b, 0x5b, 0x63]);
    r
}

/// Whether a reply to the cursor question is complete: it ends with `R`.
pub fn cursor_answered(reply: &[u8]) -> (r: bool)
    ensures
        r == (reply@.len() > 0 && reply@.last() == 0x52),
{
    reply.len() > 0 && reply[reply.len() - 1] == 0x52
}

/// Whether a reply to the background question is complete: it ends with
/// `c`, and the device-attributes answer, `ESC [ ?`, has begun.
pub fn background_answered(reply: &[u8]) -> (r: bool)
    ensures
        r == (reply@.len() > 0 && reply@.last() == 0x63 && find_seq(reply@, seq![0x1bu8, 0x5b, 0x3f])
            is Some),
{
    if reply.len() == 0 || reply[reply.len() - 1] != 0x63 {
        return false;
    }
    let marker: Vec<u8> = vec![0x1b, 0x5b, 0x3f];
    assert(marker@ =~= seq![0x1bu8, 0x5b, 0x3f]);
    find_seq_exec(reply, marker.as_slice()).is_some()
}

} // verus!
