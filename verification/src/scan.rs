//! Reading bytes that arrive from a terminal: UTF-8 status, splitting on a
//! separator, and decimal numbers.
use vstd::prelude::*;

verus! {

/// How far a byte string is well-formed UTF-8.
#[derive(Clone, Copy, Debug, PartialEq, Eq, Structural)]
pub enum Utf8 {
    /// Every character is complete and well formed.
    Valid,
    /// Well formed so far, but the last character is cut short.
    Incomplete,
    /// A byte that no well-formed text could hold at its place.
    Invalid,
}

/// How the first character of a byte string looks.
pub enum First {
    /// A complete, well-formed character of this many bytes.
    Complete(nat),
    /// The bytes present are a well-formed start, but more are needed.
    Short,
    /// A byte that cannot stand where it does.
    Bad,
}

/// The number of bytes a character starting with `b0` takes; zero when
/// no character starts with it.
pub open spec fn lead_width(b0: u8) -> nat {
    if b0 <= 0x7f {
        1
    } else if 0xc2 <= b0 <= 0xdf {
        2
    } else if 0xe0 <= b0 <= 0xef {
        3
    } else if 0xf0 <= b0 <= 0xf4 {
        4
    } else {
        0
    }
}

pub open spec fn is_continuation(b: u8) -> bool {
    0x80 <= b <= 0xbf
}

/// Whether `b1` may follow `b0`: the second byte's range excludes overlong
/// forms, surrogates, and values past U+10FFFF.
pub open spec fn second_ok(b0: u8, b1: u8) -> bool {
    if b0 == 0xe0 {
        0xa0 <= b1 <= 0xbf
    } else if b0 == 0xed {
        0x80 <= b1 <= 0x9f
    } else if b0 == 0xf0 {
        0x90 <= b1 <= 0xbf
    } else if b0 == 0xf4 {
        0x80 <= b1 <= 0x8f
    } else {
        is_continuation(b1)
    }
}

/// The first character of a non-empty byte string, checked byte by byte.
pub open spec fn first_char(s: Seq<u8>) -> First
    recommends
        s.len() > 0,
{
    let w = lead_width(s[0]);
    if w == 0 {
        First::Bad
    } else if w >= 2 && s.len() >= 2 && !second_ok(s[0], s[1]) {
        First::Bad
    } else if w >= 3 && s.len() >= 3 && !is_continuation(s[2]) {
        First::Bad
    } else if w >= 4 && s.len() >= 4 && !is_continuation(s[3]) {
        First::Bad
    } else if s.len() < w {
        First::Short
    } else {
        First::Complete(w)
    }
}

/// How far `s` is well-formed UTF-8, as `std::str::from_utf8` tells it:
/// valid, cut short at the end, or invalid.
pub open spec fn utf8_status(s: Seq<u8>) -> Utf8
    decreases s.len(),
{
    if s.len() == 0 {
        Utf8::Valid
    } else {
        match first_char(s) {
            First::Bad => Utf8::Invalid,
            First::Short => Utf8::Incomplete,
            First::Complete(n) => if n > 0 {
                utf8_status(s.skip(n as int))
            } else {
                Utf8::Invalid
            },
        }
    }
}

/// The code point of a complete first character.
pub open spec fn first_code(s: Seq<u8>) -> u32 {
    let w = lead_width(s[0]);
    if w == 1 {
        s[0] as u32
    } else if w == 2 {
        ((s[0] - 0xc0) * 64 + (s[1] - 0x80)) as u32
    } else if w == 3 {
        ((s[0] - 0xe0) * 4096 + (s[1] - 0x80) * 64 + (s[2] - 0x80)) as u32
    } else {
        ((s[0] - 0xf0) * 262144 + (s[1] - 0x80) * 4096 + (s[2] - 0x80) * 64 + (s[3] - 0x80)) as u32
    }
}

/// A Unicode scalar value: a code point that is not a surrogate.
pub open spec fn is_scalar(code: u32) -> bool {
    code <= 0x10ffff && !(0xd800 <= code <= 0xdfff)
}

/// `char::is_control`: the C0 and C1 control characters and DEL.
pub open spec fn is_control(c: char) -> bool {
    (c as u32) <= 0x1f || (0x7f <= (c as u32) && (c as u32) <= 0x9f)
}

pub proof fn first_code_is_scalar(s: Seq<u8>)
    requires
        s.len() > 0,
        first_char(s) matches First::Complete(_),
    ensures
        is_scalar(first_code(s)),
{
}

/// `char::from_u32`: the character with a code point, if it is a scalar
/// value.
pub fn char_from_u32(code: u32) -> (c: Option<char>)
    ensures
        c is Some <==> is_scalar(code),
        c matches Some(ch) ==> ch as u32 == code,
{
    if code <= 0x7f {
        Some((code as u8) as char)
    } else {
        char_from_scalar(code)
    }
}

/// The standard library's `char::from_u32`, which returns a character
/// exactly for the scalar values, with that code point.
#[verifier::external_body]
fn char_from_scalar(code: u32) -> (c: Option<char>)
    ensures
        c is Some <==> is_scalar(code),
        c matches Some(ch) ==> ch as u32 == code,
{
    char::from_u32(code)
}

/// `char::is_control`.
pub fn char_is_control(c: char) -> (r: bool)
    ensures
        r == is_control(c),
{
    let n = c as u32;
    n <= 0x1f || (0x7f <= n && n <= 0x9f)
}

/// The status of the first character of `bytes[lo..hi]`, read byte by byte.
pub fn first_char_exec(bytes: &[u8], lo: usize, hi: usize) -> (r: (u8, usize))
    requires
        lo < hi <= bytes@.len(),
    ensures
        ({
            let s = bytes@.subrange(lo as int, hi as int);
            match first_char(s) {
                First::Bad => r.0 == 2,
                First::Short => r.0 == 1,
                First::Complete(n) => r.0 == 0 && r.1 == n,
            }
        }),
{
    let ghost s = bytes@.subrange(lo as int, hi as int);
    let b0 = bytes[lo];
    let len = hi - lo;
    let w: usize = if b0 <= 0x7f {
        1
    } else if 0xc2 <= b0 && b0 <= 0xdf {
        2
    } else if 0xe0 <= b0 && b0 <= 0xef {
        3
    } else if 0xf0 <= b0 && b0 <= 0xf4 {
        4
    } else {
        0
    };
    assert(w == lead_width(s[0]));
    if w == 0 {
        return (2, 0);
    }
    if w >= 2 && len >= 2 {
        let b1 = bytes[lo + 1];
        let ok = if b0 == 0xe0 {
            0xa0 <= b1 && b1 <= 0xbf
        } else if b0 == 0xed {
            0x80 <= b1 && b1 <= 0x9f
        } else if b0 == 0xf0 {
            0x90 <= b1 && b1 <= 0xbf
        } else if b0 == 0xf4 {
            0x80 <= b1 && b1 <= 0x8f
        } else {
            0x80 <= b1 && b1 <= 0xbf
        };
        assert(ok == second_ok(s[0], s[1]));
        if !ok {
            return (2, 0);
        }
    }
    if w >= 3 && len >= 3 {
        let b2 = bytes[lo + 2];
        if !(0x80 <= b2 && b2 <= 0xbf) {
            return (2, 0);
        }
    }
    if w >= 4 && len >= 4 {
        let b3 = bytes[lo + 3];
        if !(0x80 <= b3 && b3 <= 0xbf) {
            return (2, 0);
        }
    }
    if len < w {
        return (1, 0);
    }
    (0, w)
}

/// The UTF-8 status of `bytes[lo..hi]`, as `std::str::from_utf8` tells it.
pub fn utf8_status_exec(bytes: &[u8], lo: usize, hi: usize) -> (r: Utf8)
    requires
        lo <= hi <= bytes@.len(),
    ensures
        r == utf8_status(bytes@.subrange(lo as int, hi as int)),
{
    let mut i = lo;
    while i < hi
        invariant
            lo <= i <= hi <= bytes@.len(),
            utf8_status(bytes@.subrange(lo as int, hi as int)) == utf8_status(
                bytes@.subrange(i as int, hi as int),
            ),
        decreases hi - i,
    {
        let (kind, n) = first_char_exec(bytes, i, hi);
        if kind == 2 {
            return Utf8::Invalid;
        }
        if kind == 1 {
            return Utf8::Incomplete;
        }
        proof {
            let s = bytes@.subrange(i as int, hi as int);
            assert(s.skip(n as int) =~= bytes@.subrange(i + n, hi as int));
        }
        i = i + n;
    }
    proof {
        assert(bytes@.subrange(i as int, hi as int).len() == 0);
    }
    Utf8::Valid
}

/// The first character of `bytes[lo..hi]`, which starts with a complete one.
pub fn first_code_exec(bytes: &[u8], lo: usize, hi: usize) -> (r: char)
    requires
        lo < hi <= bytes@.len(),
        first_char(bytes@.subrange(lo as int, hi as int)) matches First::Complete(_),
    ensures
        r as u32 == first_code(bytes@.subrange(lo as int, hi as int)),
{
    let ghost s = bytes@.subrange(lo as int, hi as int);
    let b0 = bytes[lo] as u32;
    let code: u32 = if b0 <= 0x7f {
        b0
    } else if b0 <= 0xdf {
        (b0 - 0xc0) * 64 + (bytes[lo + 1] as u32 - 0x80)
    } else if b0 <= 0xef {
        (b0 - 0xe0) * 4096 + (bytes[lo + 1] as u32 - 0x80) * 64 + (bytes[lo + 2] as u32 - 0x80)
    } else {
        (b0 - 0xf0) * 262144 + (bytes[lo + 1] as u32 - 0x80) * 4096 + (bytes[lo + 2] as u32 - 0x80)
            * 64 + (bytes[lo + 3] as u32 - 0x80)
    };
    proof {
        first_code_is_scalar(s);
    }
    match char_from_u32(code) {
        Some(c) => c,
        None => ' ',
    }
}

/// The fields of `s` between occurrences of `sep`, as `str::split` yields
/// them: there is always one more field than separators.
pub open spec fn split(s: Seq<u8>, sep: u8) -> Seq<Seq<u8>>
    decreases s.len(),
{
    if s.len() == 0 {
        seq![Seq::empty()]
    } else {
        let prev = split(s.drop_last(), sep);
        if s.last() == sep {
            prev.push(Seq::empty())
        } else {
            prev.update(prev.len() - 1, prev.last().push(s.last()))
        }
    }
}

pub proof fn split_not_empty(s: Seq<u8>, sep: u8)
    ensures
        split(s, sep).len() >= 1,
    decreases s.len(),
{
    if s.len() > 0 {
        split_not_empty(s.drop_last(), sep);
    }
}

/// Split `bytes[lo..hi]` on `sep`, giving the bounds of each field.
pub fn split_ranges(bytes: &[u8], lo: usize, hi: usize, sep: u8) -> (r: Vec<(usize, usize)>)
    requires
        lo <= hi <= bytes@.len(),
    ensures
        r@.len() == split(bytes@.subrange(lo as int, hi as int), sep).len(),
        forall|k: int|
            0 <= k < r@.len() ==> lo <= (#[trigger] r@[k]).0 <= r@[k].1 <= hi && bytes@.subrange(
                r@[k].0 as int,
                r@[k].1 as int,
            ) == split(bytes@.subrange(lo as int, hi as int), sep)[k],
{
    let mut r: Vec<(usize, usize)> = Vec::new();
    let mut start = lo;
    let mut i = lo;
    while i < hi
        invariant
            lo <= start <= i <= hi <= bytes@.len(),
            r@.len() + 1 == split(bytes@.subrange(lo as int, i as int), sep).len(),
            forall|k: int|
                0 <= k < r@.len() ==> lo <= (#[trigger] r@[k]).0 <= r@[k].1 <= i && bytes@.subrange(
                    r@[k].0 as int,
                    r@[k].1 as int,
                ) == split(bytes@.subrange(lo as int, i as int), sep)[k],
            bytes@.subrange(start as int, i as int) == split(
                bytes@.subrange(lo as int, i as int),
                sep,
            ).last(),
        decreases hi - i,
    {
        let ghost prev = bytes@.subrange(lo as int, i as int);
        let ghost next = bytes@.subrange(lo as int, i + 1);
        proof {
            assert(next.drop_last() =~= prev);
            split_not_empty(prev, sep);
        }
        if bytes[i] == sep {
            r.push((start, i));
            start = i + 1;
            proof {
                assert(bytes@.subrange(start as int, i + 1) =~= Seq::<u8>::empty());
            }
        } else {
            proof {
                assert(bytes@.subrange(start as int, i + 1) =~= bytes@.subrange(
                    start as int,
                    i as int,
                ).push(bytes@[i as int]));
            }
        }
        i = i + 1;
    }
    r.push((start, hi));
    proof {
        split_not_empty(bytes@.subrange(lo as int, hi as int), sep);
    }
    r
}

/// The value of a string of decimal digits.
pub open spec fn digits_value(d: Seq<u8>) -> nat
    decreases d.len(),
{
    if d.len() == 0 {
        0
    } else {
        digits_value(d.drop_last()) * 10 + (d.last() - 48) as nat
    }
}

pub open spec fn is_digit(b: u8) -> bool {
    48 <= b <= 57
}

/// The digits of a number, after an optional `+`.
pub open spec fn unsigned_digits(s: Seq<u8>) -> Seq<u8> {
    if s.len() > 0 && s[0] == 43 {
        s.skip(1)
    } else {
        s
    }
}

pub open spec fn all_digits(d: Seq<u8>) -> bool {
    forall|i: int| 0 <= i < d.len() ==> is_digit(#[trigger] d[i])
}

/// The number `s` spells as `str::parse` reads an unsigned integer no
/// larger than `max`: an optional `+`, then at least one decimal digit.
pub open spec fn parse_number(s: Seq<u8>, max: nat) -> Option<nat> {
    let d = unsigned_digits(s);
    if d.len() > 0 && all_digits(d) && digits_value(d) <= max {
        Some(digits_value(d))
    } else {
        None
    }
}

/// Parse `bytes[lo..hi]` as an unsigned number no larger than `max`.
pub fn parse_number_exec(bytes: &[u8], lo: usize, hi: usize, max: u32) -> (r: Option<u32>)
    requires
        lo <= hi <= bytes@.len(),
    ensures
        r matches Some(v) ==> parse_number(bytes@.subrange(lo as int, hi as int), max as nat)
            == Some(v as nat),
        r is None ==> parse_number(bytes@.subrange(lo as int, hi as int), max as nat) is None,
{
    let ghost s = bytes@.subrange(lo as int, hi as int);
    let start = if lo < hi && bytes[lo] == 43 {
        lo + 1
    } else {
        lo
    };
    let ghost d = bytes@.subrange(start as int, hi as int);
    assert(d =~= unsigned_digits(s));
    if start == hi {
        return None;
    }
    // The value so far, held at `max + 1` once it passes `max`.
    let cap: u64 = max as u64 + 1;
    let mut value: u64 = 0;
    let mut i = start;
    while i < hi
        invariant
            start <= i <= hi <= bytes@.len(),
            cap == max + 1,
            d == bytes@.subrange(start as int, hi as int),
            s == bytes@.subrange(lo as int, hi as int),
            d == unsigned_digits(s),
            forall|k: int| 0 <= k < i - start ==> is_digit(#[trigger] d[k]),
            value == if digits_value(d.take(i - start)) <= max {
                digits_value(d.take(i - start))
            } else {
                cap as nat
            },
        decreases hi - i,
    {
        let b = bytes[i];
        if !(48 <= b && b <= 57) {
            proof {
                let k = (i - start) as int;
                assert(d[k] == b);
                assert(!is_digit(d[k]));
                assert(!all_digits(d));
            }
            return None;
        }
        let next = value * 10 + (b - 48) as u64;
        value = if next > cap {
            cap
        } else {
            next
        };
        proof {
            assert(d.take(i + 1 - start).drop_last() =~= d.take(i - start));
        }
        i = i + 1;
    }
    assert(d.take(hi - start) =~= d);
    if value <= max as u64 {
        Some(value as u32)
    } else {
        None
    }
}

/// Whether no character of `text` is a control character.
pub open spec fn control_free(text: Seq<char>) -> bool {
    forall|j: int| 0 <= j < text.len() ==> !is_control(#[trigger] text[j])
}

/// Whether `text` holds no control character.
pub fn is_control_free(text: &str) -> (r: bool)
    ensures
        r == control_free(text@),
{
    broadcast use vstd::string::axiom_spec_iter;

    let mut ok = true;
    let chars = text.chars();
    for c in it: chars
        invariant
            it.seq() == text@,
            ok == (forall|j: int| 0 <= j < it.index() ==> !is_control(#[trigger] text@[j])),
    {
        if char_is_control(c) {
            ok = false;
        }
    }
    ok
}

/// Whether a character has the Unicode `White_Space` property: the ASCII
/// tab, line feed, vertical tab, form feed, carriage return and space, the
/// next line and no-break space, and the other spaces and separators of
/// Unicode.
pub open spec fn whitespace(c: char) -> bool {
    let u = c as u32;
    ||| 0x09 <= u <= 0x0d
    ||| u == 0x20
    ||| u == 0x85
    ||| u == 0xa0
    ||| u == 0x1680
    ||| 0x2000 <= u <= 0x200a
    ||| u == 0x2028
    ||| u == 0x2029
    ||| u == 0x202f
    ||| u == 0x205f
    ||| u == 0x3000
}

/// Whether a character has the Unicode `White_Space` property.
pub(crate) fn char_is_whitespace(c: char) -> (r: bool)
    ensures
        r == whitespace(c),
{
    let u = c as u32;
    (0x09 <= u && u <= 0x0d) || u == 0x20 || u == 0x85 || u == 0xa0 || u == 0x1680 || (0x2000 <= u
        && u <= 0x200a) || u == 0x2028 || u == 0x2029 || u == 0x202f || u == 0x205f || u == 0x3000
}

/// Whether every character of `text` is whitespace.
pub open spec fn all_whitespace(text: Seq<char>) -> bool {
    forall|j: int| 0 <= j < text.len() ==> whitespace(#[trigger] text[j])
}

/// Whether every character of `text` is whitespace.
pub fn is_all_whitespace(text: &str) -> (r: bool)
    ensures
        r == all_whitespace(text@),
{
    broadcast use vstd::string::axiom_spec_iter;

    let mut ok = true;
    let chars = text.chars();
    for c in it: chars
        invariant
            it.seq() == text@,
            ok == (forall|j: int| 0 <= j < it.index() ==> whitespace(#[trigger] text@[j])),
    {
        if !char_is_whitespace(c) {
            ok = false;
        }
    }
    ok
}

} // verus!
