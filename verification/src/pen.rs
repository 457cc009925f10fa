//! Frame output shared by the full-screen and inline renderers: colors
//! mapped to what the terminal shows, and the style a run of cells is
//! written in.
use crate::buffer::{blank_cell, row_wf, plain_style, Buffer, BufferView, Cell, CellView, Color, CursorShape, Style};
use crate::output::{decimal, extend, push_decimal};
use crate::unicode::chars_of;
use vstd::prelude::*;
use vstd::string::StringSliceAdditionalSpecFns;
use vstd::utf8::{encode_utf8, is_ascii_chars};

verus! {

/// How many colors the output accepts. Richer colors are mapped to the
/// nearest one available; attributes such as bold are always kept.
#[derive(Clone, Copy, Debug, PartialEq, Eq, Structural)]
pub enum Depth {
    /// 24-bit color.
    Rgb,
    /// The 256-color palette.
    Indexed,
    /// The 16 ANSI colors.
    Basic,
    /// No color at all.
    Mono,
}

impl Default for Depth {
    fn default() -> (d: Self)
        ensures
            d == Depth::Rgb,
    {
        Depth::Rgb
    }
}

/// The xterm default value of one of the sixteen basic colors.
pub open spec fn basic_rgb(i: int) -> (u8, u8, u8) {
    if i == 0 {
        (0, 0, 0)
    } else if i == 1 {
        (205, 0, 0)
    } else if i == 2 {
        (0, 205, 0)
    } else if i == 3 {
        (205, 205, 0)
    } else if i == 4 {
        (0, 0, 238)
    } else if i == 5 {
        (205, 0, 205)
    } else if i == 6 {
        (0, 205, 205)
    } else if i == 7 {
        (229, 229, 229)
    } else if i == 8 {
        (127, 127, 127)
    } else if i == 9 {
        (255, 0, 0)
    } else if i == 10 {
        (0, 255, 0)
    } else if i == 11 {
        (255, 255, 0)
    } else if i == 12 {
        (92, 92, 255)
    } else if i == 13 {
        (255, 0, 255)
    } else if i == 14 {
        (0, 255, 255)
    } else {
        (255, 255, 255)
    }
}

/// One step of the 6x6x6 color cube.
pub open spec fn cube_level(n: int) -> u8 {
    if n == 0 {
        0
    } else {
        (55 + 40 * n) as u8
    }
}

/// The xterm default value of a palette index: the basic sixteen, the
/// color cube, then the gray ramp.
pub open spec fn rgb_spec(index: u8) -> (u8, u8, u8) {
    if index <= 15 {
        basic_rgb(index as int)
    } else if index <= 231 {
        let n = index - 16;
        (cube_level(n / 36), cube_level((n / 6) % 6), cube_level(n % 6))
    } else {
        let gray = (8 + 10 * (index - 232)) as u8;
        (gray, gray, gray)
    }
}

fn cube_level_exec(n: u8) -> (l: u8)
    requires
        n < 6,
    ensures
        l == cube_level(n as int),
{
    if n == 0 {
        0
    } else {
        55 + 40 * n
    }
}

/// The xterm default value of a palette index.
pub fn rgb(index: u8) -> (c: (u8, u8, u8))
    ensures
        c == rgb_spec(index),
{
    if index <= 15 {
        let table: [(u8, u8, u8); 16] = [
            (0, 0, 0),
            (205, 0, 0),
            (0, 205, 0),
            (205, 205, 0),
            (0, 0, 238),
            (205, 0, 205),
            (0, 205, 205),
            (229, 229, 229),
            (127, 127, 127),
            (255, 0, 0),
            (0, 255, 0),
            (255, 255, 0),
            (92, 92, 255),
            (255, 0, 255),
            (0, 255, 255),
            (255, 255, 255),
        ];
        table[index as usize]
    } else if index <= 231 {
        let n = index - 16;
        (cube_level_exec(n / 36), cube_level_exec((n / 6) % 6), cube_level_exec(n % 6))
    } else {
        let gray = 8 + 10 * (index - 232);
        (gray, gray, gray)
    }
}

/// The squared distance between two colors.
pub open spec fn distance(a: (u8, u8, u8), b: (u8, u8, u8)) -> int {
    (a.0 - b.0) * (a.0 - b.0) + (a.1 - b.1) * (a.1 - b.1) + (a.2 - b.2) * (a.2 - b.2)
}

fn square_diff(a: u8, b: u8) -> (d: u32)
    ensures
        d == (a - b) * (a - b),
        d <= 65025,
{
    let v = a as i32 - b as i32;
    assert(v * v <= 65025) by (nonlinear_arith)
        requires
            -255 <= v <= 255,
    ;
    assert(v * v >= 0) by (nonlinear_arith);
    (v * v) as u32
}

fn distance_exec(a: (u8, u8, u8), b: (u8, u8, u8)) -> (d: u32)
    ensures
        d == distance(a, b),
{
    square_diff(a.0, b.0) + square_diff(a.1, b.1) + square_diff(a.2, b.2)
}

/// The palette index in `lo..=hi` closest to a color by squared distance;
/// among equally close ones, the first.
pub open spec fn is_nearest(index: u8, lo: u8, hi: u8, color: (u8, u8, u8)) -> bool {
    &&& lo <= index <= hi
    &&& forall|i: u8| lo <= i <= hi ==> distance(rgb_spec(index), color) <= distance(rgb_spec(i), color)
    &&& forall|i: u8| lo <= i < index ==> distance(rgb_spec(index), color) < distance(rgb_spec(i), color)
}

/// The palette index in `lo..=hi` closest to a color.
pub fn nearest(lo: u8, hi: u8, color: (u8, u8, u8)) -> (n: u8)
    requires
        lo <= hi,
    ensures
        is_nearest(n, lo, hi, color),
{
    let mut best = lo;
    let mut best_distance = distance_exec(rgb(lo), color);
    let mut i = lo;
    while i < hi
        invariant
            lo <= best <= i <= hi,
            best_distance == distance(rgb_spec(best), color),
            forall|k: u8| lo <= k <= i ==> best_distance <= distance(rgb_spec(k), color),
            forall|k: u8| lo <= k < best ==> best_distance < distance(rgb_spec(k), color),
        decreases hi - i,
    {
        i = i + 1;
        let d = distance_exec(rgb(i), color);
        if d < best_distance {
            best = i;
            best_distance = d;
        }
    }
    best
}

/// A color as a terminal of some depth can show it.
pub open spec fn resolve_spec(depth: Depth, color: Color) -> Color {
    match (depth, color) {
        (Depth::Mono, _) => Color::Default,
        (Depth::Indexed, Color::Rgb(r, g, b)) => Color::Indexed(
            choose|n: u8| is_nearest(n, 16, 255, (r, g, b)),
        ),
        (Depth::Basic, Color::Rgb(r, g, b)) => Color::Indexed(
            choose|n: u8| is_nearest(n, 0, 15, (r, g, b)),
        ),
        (Depth::Basic, Color::Indexed(n)) => if n > 15 {
            Color::Indexed(choose|m: u8| is_nearest(m, 0, 15, rgb_spec(n)))
        } else {
            color
        },
        _ => color,
    }
}

/// There is one nearest index, so `resolve_spec` names it.
pub proof fn nearest_unique(a: u8, b: u8, lo: u8, hi: u8, color: (u8, u8, u8))
    requires
        is_nearest(a, lo, hi, color),
        is_nearest(b, lo, hi, color),
    ensures
        a == b,
{
    if a < b {
        assert(distance(rgb_spec(b), color) < distance(rgb_spec(a), color));
        assert(distance(rgb_spec(a), color) <= distance(rgb_spec(b), color));
    } else if b < a {
        assert(distance(rgb_spec(a), color) < distance(rgb_spec(b), color));
        assert(distance(rgb_spec(b), color) <= distance(rgb_spec(a), color));
    }
}

impl Depth {
    /// Map a color to one this depth can show.
    pub fn resolve(self, color: Color) -> (c: Color)
        ensures
            c == resolve_spec(self, color),
    {
        match (self, color) {
            (Depth::Mono, _) => Color::Default,
            (Depth::Indexed, Color::Rgb(r, g, b)) => {
                let n = nearest(16, 255, (r, g, b));
                proof {
                    let m = choose|m: u8| is_nearest(m, 16, 255, (r, g, b));
                    nearest_unique(n, m, 16, 255, (r, g, b));
                }
                Color::Indexed(n)
            },
            (Depth::Basic, Color::Rgb(r, g, b)) => {
                let n = nearest(0, 15, (r, g, b));
                proof {
                    let m = choose|m: u8| is_nearest(m, 0, 15, (r, g, b));
                    nearest_unique(n, m, 0, 15, (r, g, b));
                }
                Color::Indexed(n)
            },
            (Depth::Basic, Color::Indexed(k)) => if k > 15 {
                let n = nearest(0, 15, rgb(k));
                proof {
                    let m = choose|m: u8| is_nearest(m, 0, 15, rgb_spec(k));
                    nearest_unique(n, m, 0, 15, rgb_spec(k));
                }
                Color::Indexed(n)
            } else {
                color
            },
            _ => color,
        }
    }
}

/// Whether a terminal of some depth can show a color as it is.
pub open spec fn shows(depth: Depth, color: Color) -> bool {
    match depth {
        Depth::Rgb => true,
        Depth::Indexed => !(color is Rgb),
        Depth::Basic => match color {
            Color::Default => true,
            Color::Indexed(n) => n <= 15,
            Color::Rgb(..) => false,
        },
        Depth::Mono => color is Default,
    }
}

/// Resolving gives a color the depth shows, and leaves such a color as it
/// is.
pub proof fn resolve_shows(depth: Depth, color: Color)
    ensures
        shows(depth, resolve_spec(depth, color)),
        shows(depth, color) && !(depth is Mono) ==> resolve_spec(depth, color) == color,
        resolve_spec(depth, resolve_spec(depth, color)) == resolve_spec(depth, color),
{
    match (depth, color) {
        (Depth::Indexed, Color::Rgb(r, g, b)) => {
            let n = nearest_witness(16, 255, (r, g, b));
        },
        (Depth::Basic, Color::Rgb(r, g, b)) => {
            let n = nearest_witness(0, 15, (r, g, b));
        },
        (Depth::Basic, Color::Indexed(k)) => {
            if k > 15 {
                let n = nearest_witness(0, 15, rgb_spec(k));
            }
        },
        _ => {},
    }
}

/// A nearest index exists.
proof fn nearest_witness(lo: u8, hi: u8, color: (u8, u8, u8)) -> (n: u8)
    requires
        lo <= hi,
    ensures
        is_nearest(n, lo, hi, color),
        is_nearest(choose|m: u8| is_nearest(m, lo, hi, color), lo, hi, color),
    decreases hi - lo,
{
    if lo == hi {
        assert(is_nearest(lo, lo, hi, color));
        lo
    } else {
        let m = nearest_witness(lo, (hi - 1) as u8, color);
        let n = if distance(rgb_spec(hi), color) < distance(rgb_spec(m), color) {
            hi
        } else {
            m
        };
        assert(is_nearest(n, lo, hi, color));
        n
    }
}

/// `;` and an attribute's code, when it is on.
#[verifier::opaque]
pub open spec fn flag(on: bool, code: u8) -> Seq<u8> {
    if on {
        seq![0x3bu8, code]
    } else {
        Seq::empty()
    }
}

/// The SGR codes of a style's attributes.
pub open spec fn attr_codes(s: Style) -> Seq<u8> {
    flag(s.bold, 0x31) + flag(s.dim, 0x32) + flag(s.italic, 0x33) + flag(s.underline, 0x34) + flag(
        s.reverse,
        0x37,
    ) + flag(s.strikethrough, 0x39)
}

/// The SGR codes of a foreground (`base` 30) or background (`base` 40)
/// color, as the depth shows it.
pub open spec fn color_code(depth: Depth, color: Color, base: nat) -> Seq<u8> {
    match resolve_spec(depth, color) {
        Color::Default => Seq::empty(),
        Color::Indexed(n) => if n < 8 && depth == Depth::Basic {
            seq![0x3bu8] + decimal(base + n as nat)
        } else if n < 16 && depth == Depth::Basic {
            seq![0x3bu8] + decimal(base + 52 + n as nat)
        } else {
            seq![0x3bu8] + decimal(base + 8) + seq![0x3bu8, 0x35, 0x3b] + decimal(n as nat)
        },
        Color::Rgb(r, g, b) => seq![0x3bu8] + decimal(base + 8) + seq![0x3bu8, 0x32, 0x3b] + decimal(
            r as nat,
        ) + seq![0x3bu8] + decimal(g as nat) + seq![0x3bu8] + decimal(b as nat),
    }
}

/// `ESC [ 0 ... m`: reset every attribute, then set a style's.
pub open spec fn sgr_bytes(depth: Depth, s: Style) -> Seq<u8> {
    seq![0x1bu8, 0x5b, 0x30] + attr_codes(s) + color_code(depth, s.fg, 30) + color_code(
        depth,
        s.bg,
        40,
    ) + seq![0x6du8]
}

/// What a pen writes for one cell given the style the terminal has open:
/// the style's codes when it changes, then the grapheme.
pub open spec fn cell_bytes(depth: Depth, open: Option<Style>, c: CellView) -> Seq<u8> {
    (if open == Some(c.style) {
        Seq::empty()
    } else {
        sgr_bytes(depth, c.style)
    }) + encode_utf8(c.symbol)
}

/// What closing a pen writes: a reset when a style other than the plain
/// one is open.
pub open spec fn reset_bytes(open: Option<Style>) -> Seq<u8> {
    match open {
        Some(s) => if s != plain_style() {
            seq![0x1bu8, 0x5b, 0x30, 0x6d]
        } else {
            Seq::empty()
        },
        None => Seq::empty(),
    }
}

/// Append `;` and `code` when `on`.
fn push_flag(out: &mut Vec<u8>, on: bool, code: u8)
    ensures
        final(out)@ == old(out)@ + flag(on, code),
{
    if on {
        out.push(0x3b);
        out.push(code);
    }
    reveal(flag);
    assert(out@ =~= old(out)@ + flag(on, code));
}

/// Append the codes of a style's attributes.
fn push_attrs(out: &mut Vec<u8>, s: Style)
    ensures
        final(out)@ == old(out)@ + attr_codes(s),
{
    let ghost start = out@;
    let ghost a = flag(s.bold, 0x31);
    let ghost b = a + flag(s.dim, 0x32);
    let ghost c = b + flag(s.italic, 0x33);
    let ghost d = c + flag(s.underline, 0x34);
    let ghost e = d + flag(s.reverse, 0x37);
    push_flag(out, s.bold, 0x31);
    push_flag(out, s.dim, 0x32);
    assert(out@ =~= start + b);
    push_flag(out, s.italic, 0x33);
    assert(out@ =~= start + c);
    push_flag(out, s.underline, 0x34);
    assert(out@ =~= start + d);
    push_flag(out, s.reverse, 0x37);
    assert(out@ =~= start + e);
    push_flag(out, s.strikethrough, 0x39);
    assert(out@ =~= start + attr_codes(s));
}

/// A byte occurs in a joined sequence exactly when it occurs in a part.
proof fn joined_contains(a: Seq<u8>, b: Seq<u8>, x: u8)
    ensures
        (a + b).contains(x) == (a.contains(x) || b.contains(x)),
{
    if (a + b).contains(x) {
        let i = choose|i: int| 0 <= i < (a + b).len() && (a + b)[i] == x;
        if i < a.len() {
            assert(a[i] == x);
        } else {
            assert(b[i - a.len()] == x);
        }
    }
    if a.contains(x) {
        let i = choose|i: int| 0 <= i < a.len() && a[i] == x;
        assert((a + b)[i] == x);
    }
    if b.contains(x) {
        let i = choose|i: int| 0 <= i < b.len() && b[i] == x;
        assert((a + b)[a.len() + i] == x);
    }
}

/// A flag holds its code exactly when it is on.
proof fn flag_contains(on: bool, code: u8, x: u8)
    requires
        x != 0x3b,
    ensures
        flag(on, code).contains(x) == (on && x == code),
        flag(on, code).len() == if on { 2int } else { 0int },
{
    reveal(flag);
    if on {
        assert(flag(on, code)[1] == code);
        if flag(on, code).contains(x) {
            let i = choose|i: int| 0 <= i < flag(on, code).len() && flag(on, code)[i] == x;
            assert(i == 1);
        }
    }
}

/// Each attribute has its own ECMA-48 code in a style's SGR sequence: bold
/// 1, dim 2, italic 3, underline 4, reverse 7, strikethrough 9. The codes
/// follow the reset `ESC [ 0`, and the code of an attribute is there
/// exactly when the style has it on.
pub proof fn sgr_codes_name_each_attribute(depth: Depth, s: Style)
    ensures
        sgr_bytes(depth, s).take(3) == seq![0x1bu8, 0x5b, 0x30],
        sgr_bytes(depth, s).subrange(3, 3 + attr_codes(s).len() as int) == attr_codes(s),
        attr_codes(s).contains(0x31) == s.bold,
        attr_codes(s).contains(0x32) == s.dim,
        attr_codes(s).contains(0x33) == s.italic,
        attr_codes(s).contains(0x34) == s.underline,
        attr_codes(s).contains(0x37) == s.reverse,
        attr_codes(s).contains(0x39) == s.strikethrough,
        attr_codes(s).len() == 2 * ((if s.bold { 1int } else { 0 }) + (if s.dim { 1int } else { 0 })
            + (if s.italic { 1int } else { 0 }) + (if s.underline { 1int } else { 0 }) + (if s.reverse {
            1int
        } else {
            0
        }) + (if s.strikethrough { 1int } else { 0 })),
{
    let f1 = flag(s.bold, 0x31);
    let f2 = flag(s.dim, 0x32);
    let f3 = flag(s.italic, 0x33);
    let f4 = flag(s.underline, 0x34);
    let f7 = flag(s.reverse, 0x37);
    let f9 = flag(s.strikethrough, 0x39);
    let codes: Seq<u8> = seq![0x31u8, 0x32, 0x33, 0x34, 0x37, 0x39];
    assert forall|k: int| 0 <= k < 6 implies ({
        let x = #[trigger] codes[k];
        &&& attr_codes(s).contains(x) == (f1.contains(x) || f2.contains(x) || f3.contains(x)
            || f4.contains(x) || f7.contains(x) || f9.contains(x))
    }) by {
        let x = codes[k];
        joined_contains(f1, f2, x);
        joined_contains(f1 + f2, f3, x);
        joined_contains(f1 + f2 + f3, f4, x);
        joined_contains(f1 + f2 + f3 + f4, f7, x);
        joined_contains(f1 + f2 + f3 + f4 + f7, f9, x);
    }
    assert forall|k: int| 0 <= k < 6 implies ({
        let x = #[trigger] codes[k];
        &&& f1.contains(x) == (s.bold && x == 0x31)
        &&& f2.contains(x) == (s.dim && x == 0x32)
        &&& f3.contains(x) == (s.italic && x == 0x33)
        &&& f4.contains(x) == (s.underline && x == 0x34)
        &&& f7.contains(x) == (s.reverse && x == 0x37)
        &&& f9.contains(x) == (s.strikethrough && x == 0x39)
    }) by {
        let x = codes[k];
        flag_contains(s.bold, 0x31, x);
        flag_contains(s.dim, 0x32, x);
        flag_contains(s.italic, 0x33, x);
        flag_contains(s.underline, 0x34, x);
        flag_contains(s.reverse, 0x37, x);
        flag_contains(s.strikethrough, 0x39, x);
    }
    assert(codes[0] == 0x31);
    assert(codes[1] == 0x32);
    assert(codes[2] == 0x33);
    assert(codes[3] == 0x34);
    assert(codes[4] == 0x37);
    assert(codes[5] == 0x39);
    flag_contains(s.bold, 0x31, 0x31);
    flag_contains(s.dim, 0x32, 0x31);
    flag_contains(s.italic, 0x33, 0x31);
    flag_contains(s.underline, 0x34, 0x31);
    flag_contains(s.reverse, 0x37, 0x31);
    flag_contains(s.strikethrough, 0x39, 0x31);
    let head = seq![0x1bu8, 0x5b, 0x30];
    let a = attr_codes(s);
    let rest = color_code(depth, s.fg, 30) + color_code(depth, s.bg, 40) + seq![0x6du8];
    assert(sgr_bytes(depth, s) =~= head + a + rest);
    assert((head + a + rest).take(3) =~= head);
    assert((head + a + rest).subrange(3, 3 + a.len() as int) =~= a);
}

/// The color codes are ECMA-48's and xterm's: on a true-color terminal a
/// foreground is `38;2;r;g;b` or `38;5;n` and a background the same with
/// 48; on a basic one the eight colors are `30`–`37` ahead and `40`–`47`
/// behind, the bright eight `90`–`97` and `100`–`107`; the terminal's own
/// color adds no code, and a monochrome terminal gets none.
pub proof fn color_codes_are_ecma_48(r: u8, g: u8, b: u8, n: u8, c: Color)
    ensures
        color_code(Depth::Rgb, Color::Rgb(r, g, b), 30) == seq![0x3bu8, 0x33, 0x38, 0x3b, 0x32, 0x3b]
            + decimal(r as nat) + seq![0x3bu8] + decimal(g as nat) + seq![0x3bu8] + decimal(b as nat),
        color_code(Depth::Rgb, Color::Rgb(r, g, b), 40) == seq![0x3bu8, 0x34, 0x38, 0x3b, 0x32, 0x3b]
            + decimal(r as nat) + seq![0x3bu8] + decimal(g as nat) + seq![0x3bu8] + decimal(b as nat),
        color_code(Depth::Rgb, Color::Indexed(n), 30) == seq![0x3bu8, 0x33, 0x38, 0x3b, 0x35, 0x3b]
            + decimal(n as nat),
        color_code(Depth::Rgb, Color::Indexed(n), 40) == seq![0x3bu8, 0x34, 0x38, 0x3b, 0x35, 0x3b]
            + decimal(n as nat),
        n < 8 ==> color_code(Depth::Basic, Color::Indexed(n), 30) == seq![0x3bu8, 0x33, (0x30 + n) as u8],
        n < 8 ==> color_code(Depth::Basic, Color::Indexed(n), 40) == seq![0x3bu8, 0x34, (0x30 + n) as u8],
        8 <= n < 16 ==> color_code(Depth::Basic, Color::Indexed(n), 30) == seq![0x3bu8, 0x39, (0x30 + n - 8) as u8],
        8 <= n < 16 ==> color_code(Depth::Basic, Color::Indexed(n), 40) == seq![
            0x3bu8,
            0x31,
            0x30,
            (0x30 + n - 8) as u8,
        ],
        color_code(Depth::Rgb, Color::Default, 30) == Seq::<u8>::empty(),
        color_code(Depth::Mono, c, 30) == Seq::<u8>::empty(),
        color_code(Depth::Mono, c, 40) == Seq::<u8>::empty(),
{
    assert(decimal(38) =~= seq![0x33u8, 0x38]) by {
        assert(decimal(3) == seq![0x33u8]);
    }
    assert(decimal(48) =~= seq![0x34u8, 0x38]) by {
        assert(decimal(4) == seq![0x34u8]);
    }
    if n < 8 {
        assert(decimal(30 + n as nat) =~= seq![0x33u8, (0x30 + n) as u8]) by {
            assert(decimal(3) == seq![0x33u8]);
        }
        assert(decimal(40 + n as nat) =~= seq![0x34u8, (0x30 + n) as u8]) by {
            assert(decimal(4) == seq![0x34u8]);
        }
    }
    if 8 <= n < 16 {
        assert(decimal(30 + 52 + n as nat) =~= seq![0x39u8, (0x30 + n - 8) as u8]) by {
            assert(decimal(9) == seq![0x39u8]);
        }
        assert(decimal(10) =~= seq![0x31u8, 0x30]) by {
            assert(decimal(1) == seq![0x31u8]);
        }
        assert(decimal(40 + 52 + n as nat) =~= seq![0x31u8, 0x30, (0x30 + n - 8) as u8]) by {
            assert(decimal(1) == seq![0x31u8]);
            assert(decimal(10) =~= seq![0x31u8, 0x30]);
            assert((92 + n as nat) / 10 == 10);
        }
    }
    assert(seq![0x3bu8] + seq![0x33u8, 0x38] + seq![0x3bu8, 0x32, 0x3b] =~= seq![0x3bu8, 0x33, 0x38, 0x3b, 0x32, 0x3b]);
    assert(seq![0x3bu8] + seq![0x34u8, 0x38] + seq![0x3bu8, 0x32, 0x3b] =~= seq![0x3bu8, 0x34, 0x38, 0x3b, 0x32, 0x3b]);
    assert(seq![0x3bu8] + seq![0x33u8, 0x38] + seq![0x3bu8, 0x35, 0x3b] =~= seq![0x3bu8, 0x33, 0x38, 0x3b, 0x35, 0x3b]);
    assert(seq![0x3bu8] + seq![0x34u8, 0x38] + seq![0x3bu8, 0x35, 0x3b] =~= seq![0x3bu8, 0x34, 0x38, 0x3b, 0x35, 0x3b]);
}

/// Tracks the style the terminal currently has open, so runs of similar
/// cells are written without repeating it.
pub struct Pen {
    depth: Depth,
    style: Option<Style>,
}

impl Pen {
    pub closed spec fn depth_spec(&self) -> Depth {
        self.depth
    }

    /// The style the terminal has open, if known.
    pub closed spec fn open_spec(&self) -> Option<Style> {
        self.style
    }

    pub fn new(depth: Depth) -> (p: Self)
        ensures
            p.depth_spec() == depth,
            p.open_spec() is None,
    {
        Pen { depth, style: None }
    }

    /// Replace all terminal attributes, preventing style leakage between
    /// cells.
    fn sgr(&self, out: &mut Vec<u8>, style: Style)
        ensures
            final(out)@ == old(out)@ + sgr_bytes(self.depth, style),
    {
        let ghost start = out@;
        extend(out, &[0x1b, 0x5b, 0x30]);
        push_attrs(out, style);
        let ghost mid = out@;
        self.color(out, style.fg, 30);
        self.color(out, style.bg, 40);
        out.push(0x6d);
        assert(out@ =~= start + sgr_bytes(self.depth, style));
    }

    /// The codes of one color.
    fn color(&self, out: &mut Vec<u8>, color: Color, base: u8)
        requires
            base == 30 || base == 40,
        ensures
            final(out)@ == old(out)@ + color_code(self.depth, color, base as nat),
    {
        let ghost start = out@;
        match self.depth.resolve(color) {
            Color::Default => {},
            Color::Indexed(n) => {
                out.push(0x3b);
                if n < 8 && self.depth == Depth::Basic {
                    push_decimal(out, (base + n) as u64);
                } else if n < 16 && self.depth == Depth::Basic {
                    push_decimal(out, (base + 52 + n) as u64);
                } else {
                    push_decimal(out, (base + 8) as u64);
                    extend(out, &[0x3b, 0x35, 0x3b]);
                    push_decimal(out, n as u64);
                }
            },
            Color::Rgb(r, g, b) => {
                out.push(0x3b);
                push_decimal(out, (base + 8) as u64);
                extend(out, &[0x3b, 0x32, 0x3b]);
                push_decimal(out, r as u64);
                out.push(0x3b);
                push_decimal(out, g as u64);
                out.push(0x3b);
                push_decimal(out, b as u64);
            },
        }
        assert(out@ =~= start + color_code(self.depth, color, base as nat));
    }

    /// Write one cell: its style, when it differs from the one open, then
    /// its grapheme.
    pub fn cell(&mut self, out: &mut Vec<u8>, cell: &Cell)
        ensures
            final(out)@ == old(out)@ + cell_bytes(old(self).depth_spec(), old(self).open_spec(), cell@),
            final(self).open_spec() == Some(cell@.style),
            final(self).depth_spec() == old(self).depth_spec(),
    {
        let ghost start = out@;
        let style = cell.style();
        let same = match self.style {
            Some(s) => s == style,
            None => false,
        };
        if !same {
            self.style = Some(style);
            self.sgr(out, style);
        }
        extend(out, cell.symbol().as_bytes());
        assert(out@ =~= start + cell_bytes(old(self).depth, old(self).style, cell@));
    }

    /// Close the style and return to the terminal's default attributes.
    pub fn reset(&mut self, out: &mut Vec<u8>)
        ensures
            final(out)@ == old(out)@ + reset_bytes(old(self).open_spec()),
            final(self).open_spec() is None,
            final(self).depth_spec() == old(self).depth_spec(),
    {
        let ghost start = out@;
        match self.style {
            Some(s) => {
                if s != Style::default() {
                    extend(out, &[0x1b, 0x5b, 0x30, 0x6d]);
                }
            },
            None => {},
        }
        self.style = None;
        assert(out@ =~= start + reset_bytes(old(self).style));
    }
}

/// How many cells of a row come before its trailing blanks.
pub open spec fn trim_end(r: Seq<CellView>) -> nat
    decreases r.len(),
{
    if r.len() == 0 {
        0
    } else if r.last() != blank_cell() {
        r.len()
    } else {
        trim_end(r.drop_last())
    }
}

/// The cells `x..end` of a row written in order, skipping continuation
/// cells; after a grapheme other than plain ASCII the cursor is placed
/// again, since terminals disagree on cluster widths. Returns the bytes
/// and the style left open.
pub open spec fn row_body(depth: Depth, open: Option<Style>, r: Seq<CellView>, x: int, end: int) -> (
    Seq<u8>,
    Option<Style>,
)
    decreases end - x,
{
    if x >= end {
        (Seq::empty(), open)
    } else if r[x].width == 0 {
        row_body(depth, open, r, x + 1, end)
    } else {
        let here = cell_bytes(depth, open, r[x]) + if is_ascii_chars(r[x].symbol) {
            Seq::empty()
        } else {
            seq![0x1bu8, 0x5b] + decimal((x + r[x].width + 1) as nat) + seq![0x47u8]
        };
        let rest = row_body(depth, Some(r[x].style), r, x + 1, end);
        (here + rest.0, rest.1)
    }
}

/// A whole row written from its first column: its cells up to the last
/// one that is not blank, a reset, and an erase to the end of the line
/// unless the row is full, where erasing would eat its last cell.
pub open spec fn row_bytes(depth: Depth, open: Option<Style>, r: Seq<CellView>) -> Seq<u8> {
    let end = trim_end(r);
    let body = row_body(depth, open, r, 0, end as int);
    body.0 + reset_bytes(body.1) + if end < r.len() || r.len() == 0 {
        seq![0x1bu8, 0x5b, 0x4b]
    } else {
        Seq::empty()
    }
}

/// The cells of a row up to its last non-blank one.
fn trimmed(row: &[Cell]) -> (end: usize)
    ensures
        end == trim_end(row@.map_values(|c: Cell| c@)),
        end <= row@.len(),
{
    let ghost r = row@.map_values(|c: Cell| c@);
    let mut n = row.len();
    assert(r.take(n as int) =~= r);
    while n > 0 && row[n - 1].is_blank()
        invariant
            n <= row@.len(),
            r == row@.map_values(|c: Cell| c@),
            trim_end(r) == trim_end(r.take(n as int)),
        decreases n,
    {
        assert(r.take(n as int).drop_last() =~= r.take(n - 1));
        n = n - 1;
    }
    proof {
        if n > 0 {
            assert(r.take(n as int).last() == r[n - 1]);
        }
    }
    n
}

impl Pen {
    /// Write a whole row from the cursor, which must be at the row's first
    /// column. Trailing blanks are erased instead of written.
    pub fn row(&mut self, out: &mut Vec<u8>, cells: &[Cell])
        requires
            row_wf(cells@.map_values(|c: Cell| c@)),
            cells@.len() <= u16::MAX,
        ensures
            final(out)@ == old(out)@ + row_bytes(
                old(self).depth_spec(),
                old(self).open_spec(),
                cells@.map_values(|c: Cell| c@),
            ),
            final(self).open_spec() is None,
            final(self).depth_spec() == old(self).depth_spec(),
    {
        let ghost r = cells@.map_values(|c: Cell| c@);
        let ghost start = out@;
        let end = trimmed(cells);
        let ghost body = row_body(self.depth, self.style, r, 0, end as int);
        let mut x: usize = 0;
        while x < end
            invariant
                x <= end <= cells@.len() <= u16::MAX,
                r == cells@.map_values(|c: Cell| c@),
                row_wf(r),
                self.depth == old(self).depth,
                out@ + row_body(self.depth, self.style, r, x as int, end as int).0 == start + body.0,
                row_body(self.depth, self.style, r, x as int, end as int).1 == body.1,
            decreases end - x,
        {
            let cell = &cells[x];
            assert(r[x as int] == cell@);
            if cell.width() > 0 {
                let ghost before = out@;
                let ghost open = self.style;
                self.cell(out, cell);
                if !cell.symbol().is_ascii() {
                    extend(out, &[0x1b, 0x5b]);
                    push_decimal(out, (x + cell.width() + 1) as u64);
                    out.push(0x47);
                }
                proof {
                    let rest = row_body(self.depth, self.style, r, x + 1, end as int);
                    assert(out@ + rest.0 =~= before + row_body(self.depth, open, r, x as int, end as int).0);
                }
            }
            x = x + 1;
        }
        let ghost last = out@;
        self.reset(out);
        if end < cells.len() || cells.len() == 0 {
            extend(out, &[0x1b, 0x5b, 0x4b]);
        }
        assert(out@ =~= start + row_bytes(old(self).depth, old(self).style, r));
    }
}

/// `ESC [ ? 2026 h`, which opens a synchronized update.
pub open spec fn begin_bytes() -> Seq<u8> {
    seq![0x1bu8, 0x5b, 0x3f, 0x32, 0x30, 0x32, 0x36, 0x68]
}

/// `ESC [ ? 2026 l`, which closes it.
pub open spec fn end_bytes() -> Seq<u8> {
    seq![0x1bu8, 0x5b, 0x3f, 0x32, 0x30, 0x32, 0x36, 0x6c]
}

/// `ESC [ ? 25 l`, which hides the cursor.
pub open spec fn hide_bytes() -> Seq<u8> {
    seq![0x1bu8, 0x5b, 0x3f, 0x32, 0x35, 0x6c]
}

/// `ESC [ ? 25 h`, which shows it.
pub open spec fn show_bytes() -> Seq<u8> {
    seq![0x1bu8, 0x5b, 0x3f, 0x32, 0x35, 0x68]
}

/// `ESC [ code SP q`, which sets the cursor's shape.
pub open spec fn shape_bytes(shape: CursorShape) -> Seq<u8> {
    seq![0x1bu8, 0x5b] + decimal(shape.code_spec() as nat) + seq![0x20u8, 0x71]
}

/// A carriage return, then `ESC [ row ; column H` to a zero-based cell.
pub open spec fn position_bytes(x: nat, y: nat) -> Seq<u8> {
    seq![0x0du8, 0x1b, 0x5b] + decimal(y + 1) + seq![0x3bu8] + decimal(x + 1) + seq![0x48u8]
}

/// How a frame's bytes end: the pen's style closed, the cursor's shape
/// when it changed, the cursor shown where the frame wants it, and the
/// synchronized update closed.
pub open spec fn finish_bytes(
    open: Option<Style>,
    known: Option<CursorShape>,
    shape: CursorShape,
    cursor: Option<(u16, u16)>,
) -> Seq<u8> {
    reset_bytes(open) + (if known == Some(shape) {
        Seq::empty()
    } else {
        shape_bytes(shape)
    }) + match cursor {
        Some((x, y)) => position_bytes(x as nat, y as nat) + show_bytes(),
        None => Seq::empty(),
    } + end_bytes()
}

/// Append the bytes that set the cursor's shape.
fn push_shape(out: &mut Vec<u8>, shape: CursorShape)
    ensures
        final(out)@ == old(out)@ + shape_bytes(shape),
{
    extend(out, &[0x1b, 0x5b]);
    push_decimal(out, shape.code() as u64);
    extend(out, &[0x20, 0x71]);
    assert(out@ =~= old(out)@ + shape_bytes(shape));
}

/// Append the bytes that show the cursor at a zero-based cell.
fn push_position(out: &mut Vec<u8>, x: u16, y: u16)
    ensures
        final(out)@ == old(out)@ + position_bytes(x as nat, y as nat) + show_bytes(),
{
    extend(out, &[0x0d, 0x1b, 0x5b]);
    push_decimal(out, y as u64 + 1);
    out.push(0x3b);
    push_decimal(out, x as u64 + 1);
    out.push(0x48);
    let ghost mid = out@;
    assert(mid =~= old(out)@ + position_bytes(x as nat, y as nat));
    extend(out, &[0x1b, 0x5b, 0x3f, 0x32, 0x35, 0x68]);
    assert(out@ =~= old(out)@ + position_bytes(x as nat, y as nat) + show_bytes());
}

/// What a renderer remembers of the terminal between frames, and the
/// storage it builds each frame's bytes in.
pub struct Shadow {
    /// The last frame written.
    pub previous: Option<Buffer>,
    /// The version of the last frame drawn; zero when unknown.
    pub seen: u64,
    /// The cursor shape the terminal was last told; `None` when unknown.
    pub shape: Option<CursorShape>,
    pub output: Vec<u8>,
    pub depth: Depth,
}

/// What an optional frame holds.
pub open spec fn frame_view(b: Option<Buffer>) -> Option<BufferView> {
    match b {
        Some(b) => Some(b@),
        None => None,
    }
}

impl Shadow {
    pub fn new(depth: Depth) -> (s: Self)
        ensures
            s.previous is None,
            s.seen == 0,
            s.shape is None,
            s.output@ == Seq::<u8>::empty(),
            s.depth == depth,
    {
        Shadow { previous: None, seen: 0, shape: None, output: Vec::new(), depth }
    }

    /// Whether `frame` is the one last written, so drawing it again can be
    /// skipped without comparing a cell.
    pub fn drawn(&self, frame: &Buffer) -> (r: bool)
        ensures
            r == (frame@.version != 0 && frame@.version == self.seen),
    {
        frame.version() != 0 && frame.version() == self.seen
    }

    /// Whether the terminal's cursor differs from what `frame` wants, given
    /// the frame it last showed, if known.
    pub fn cursor_changed(&self, frame: &Buffer, old: Option<&Buffer>) -> (r: bool)
        ensures
            r == (Some(frame@.shape) != self.shape || match old {
                Some(o) => o@.cursor != frame@.cursor,
                None => true,
            }),
    {
        let same_shape = match self.shape {
            Some(s) => s == frame.cursor_shape(),
            None => false,
        };
        !same_shape || match old {
            Some(o) => o.cursor() != frame.cursor(),
            None => true,
        }
    }

    /// Something else may have hidden or reshaped the cursor. The next
    /// frame sends it again.
    pub fn forget_cursor(&mut self)
        ensures
            final(self).shape is None,
            final(self).seen == 0,
            final(self).previous == old(self).previous,
            final(self).output == old(self).output,
            final(self).depth == old(self).depth,
    {
        self.shape = None;
        self.seen = 0;
    }

    /// Start a frame's bytes: a synchronized update, with the cursor hidden
    /// while cells change beneath it.
    pub fn begin(&mut self) -> (pen: Pen)
        ensures
            final(self).output@ == begin_bytes() + hide_bytes(),
            pen.depth_spec() == old(self).depth,
            pen.open_spec() is None,
            final(self).previous == old(self).previous,
            final(self).seen == old(self).seen,
            final(self).shape == old(self).shape,
            final(self).depth == old(self).depth,
    {
        self.output.clear();
        extend(&mut self.output, &[0x1b, 0x5b, 0x3f, 0x32, 0x30, 0x32, 0x36, 0x68]);
        extend(&mut self.output, &[0x1b, 0x5b, 0x3f, 0x32, 0x35, 0x6c]);
        assert(self.output@ =~= begin_bytes() + hide_bytes());
        Pen::new(self.depth)
    }

    /// Record `frame` as drawn without writing anything.
    pub fn keep(&mut self, frame: &Buffer, previous: Option<Buffer>)
        ensures
            final(self).previous == previous,
            final(self).seen == frame@.version,
            final(self).output@ == Seq::<u8>::empty(),
            final(self).shape == old(self).shape,
            final(self).depth == old(self).depth,
    {
        self.previous = previous;
        self.seen = frame.version();
        self.output.clear();
    }

    /// End the frame begun with `begin`: close the pen, set the cursor
    /// shape, show the cursor at the zero-based screen `cursor` if there is
    /// one, and close the update. `frame` becomes the shadow frame.
    pub fn finish(&mut self, pen: Pen, frame: &Buffer, previous: Option<Buffer>, cursor: Option<(u16, u16)>)
        ensures
            final(self).output@ == old(self).output@ + finish_bytes(
                pen.open_spec(),
                old(self).shape,
                frame@.shape,
                cursor,
            ),
            final(self).shape == Some(frame@.shape),
            frame_view(final(self).previous) == Some(frame@),
            final(self).seen == frame@.version,
            final(self).depth == old(self).depth,
    {
        let ghost open = pen.open_spec();
        let mut pen = pen;
        let ghost start = self.output@;
        pen.reset(&mut self.output);
        let ghost after_reset = self.output@;
        let shape = frame.cursor_shape();
        let known = match self.shape {
            Some(s) => s == shape,
            None => false,
        };
        if !known {
            push_shape(&mut self.output, shape);
        }
        let ghost after_shape = self.output@;
        match cursor {
            Some((x, y)) => push_position(&mut self.output, x, y),
            None => {},
        }
        let ghost after_cursor = self.output@;
        extend(&mut self.output, &[0x1b, 0x5b, 0x3f, 0x32, 0x30, 0x32, 0x36, 0x6c]);
        proof {
            let sb = if old(self).shape == Some(shape) {
                Seq::empty()
            } else {
                shape_bytes(shape)
            };
            let cb = match cursor {
                Some((x, y)) => position_bytes(x as nat, y as nat) + show_bytes(),
                None => Seq::<u8>::empty(),
            };
            assert(after_shape =~= after_reset + sb);
            assert(after_cursor =~= after_shape + cb);
            assert(self.output@ =~= start + finish_bytes(open, old(self).shape, shape, cursor));
        }
        self.shape = Some(shape);
        self.previous = Some(frame.clone());
        self.seen = frame.version();
    }
}

/// Whether `c` is `n` once an ASCII capital is made small, as
/// `str::to_ascii_lowercase` maps it.
pub open spec fn lowers_to(c: char, n: char) -> bool {
    if 'A' <= c <= 'Z' {
        (c as u32) + 32 == n as u32
    } else {
        c == n
    }
}

/// Whether `needle` occurs in `text` made small, as
/// `text.to_ascii_lowercase().contains(needle)` answers.
pub open spec fn occurs(text: Seq<char>, needle: Seq<char>) -> bool {
    exists|i: int|
        0 <= i && i + needle.len() <= text.len() && #[trigger] matches_at(text, needle, i)
}

/// Whether `needle` matches `text` made small from position `i` on.
pub open spec fn matches_at(text: Seq<char>, needle: Seq<char>, i: int) -> bool {
    forall|m: int| 0 <= m < needle.len() ==> lowers_to(#[trigger] text[i + m], needle[m])
}

/// Whether one of `names` occurs in `value`, ignoring ASCII case.
pub open spec fn named(names: Seq<Seq<char>>, value: Seq<char>) -> bool {
    exists|k: int| 0 <= k < names.len() && occurs(value, #[trigger] names[k])
}

/// Terminals known by name for 24-bit color.
pub open spec fn rgb_terms() -> Seq<Seq<char>> {
    seq![
        "direct"@,
        "kitty"@,
        "ghostty"@,
        "alacritty"@,
        "foot"@,
        "wezterm"@,
        "contour"@,
        "iterm"@,
    ]
}

/// Terminal programs known by name for 24-bit color.
pub open spec fn rgb_programs() -> Seq<Seq<char>> {
    seq!["iterm"@, "wezterm"@, "ghostty"@, "vscode"@]
}

/// The depth that the values of `NO_COLOR`, `COLORTERM`, `TERM` and
/// `TERM_PROGRAM` call for, an unset one read as empty.
pub open spec fn env_depth(
    no_color: Seq<char>,
    colorterm: Seq<char>,
    term: Seq<char>,
    program: Seq<char>,
) -> Depth {
    if no_color.len() > 0 || term == "dumb"@ {
        Depth::Mono
    } else if colorterm == "truecolor"@ || colorterm == "24bit"@ || named(rgb_terms(), term)
        || named(rgb_programs(), program) {
        Depth::Rgb
    } else if term == "linux"@ || term == "vt100"@ || term == "vt220"@ || term == "ansi"@
        || term.len() == 0 {
        Depth::Basic
    } else {
        Depth::Indexed
    }
}

/// The text of a variable, empty when it is unset.
pub open spec fn env_value(v: Option<String>) -> Seq<char> {
    match v {
        Some(s) => s@,
        None => Seq::empty(),
    }
}

/// Whether two texts are the same.
fn same_text(a: &str, b: &str) -> (r: bool)
    ensures
        r == (a@ == b@),
{
    a.to_owned() == b.to_owned()
}

/// Whether `needle` occurs in `text` with ASCII capitals in `text` made
/// small.
fn occurs_lower(text: &[char], needle: &[char]) -> (r: bool)
    ensures
        r == occurs(text@, needle@),
{
    if needle.len() > text.len() {
        return false;
    }
    if needle.len() == 0 {
        assert(matches_at(text@, needle@, 0));
        return true;
    }
    let tl = text.len();
    let last = text.len() - needle.len();
    let mut i: usize = 0;
    while i <= last
        invariant
            1 <= needle@.len() <= text@.len() == tl,
            last == text@.len() - needle@.len(),
            i <= last + 1,
            forall|k: int| 0 <= k < i ==> !#[trigger] matches_at(text@, needle@, k),
        decreases last + 1 - i,
    {
        let mut j: usize = 0;
        let mut hit = true;
        while j < needle.len()
            invariant
                i <= last,
                1 <= needle@.len() <= text@.len() == tl,
                last == text@.len() - needle@.len(),
                j <= needle@.len(),
                hit == (forall|m: int| 0 <= m < j ==> lowers_to(#[trigger] text@[i + m], needle@[m])),
            decreases needle@.len() - j,
        {
            let c = text[i + j];
            let n = needle[j];
            let same = if 'A' <= c && c <= 'Z' {
                (c as u32) + 32 == (n as u32)
            } else {
                c == n
            };
            if !same {
                hit = false;
            }
            proof {
                assert(text@[i + j] == c);
                if hit {
                    assert forall|m: int| 0 <= m < j + 1 implies lowers_to(#[trigger] text@[i + m], needle@[m]) by {
                        if m == j {
                            assert(text@[i + m] == c);
                        }
                    }
                }
            }
            j = j + 1;
        }
        if hit {
            assert(matches_at(text@, needle@, i as int));
            return true;
        }
        i = i + 1;
    }
    proof {
        if occurs(text@, needle@) {
            let k = choose|k: int| 0 <= k && k + needle@.len() <= text@.len() && #[trigger] matches_at(text@, needle@, k);
            assert(!matches_at(text@, needle@, k));
        }
    }
    false
}

/// Whether one of `names` occurs in `value`, ignoring ASCII case.
fn named_in(names: &[&str], value: &str) -> (r: bool)
    ensures
        r == named(names@.map_values(|n: &str| n@), value@),
{
    let ghost all = names@.map_values(|n: &str| n@);
    let text = chars_of(value);
    let mut k: usize = 0;
    while k < names.len()
        invariant
            k <= names@.len(),
            text@ == value@,
            all == names@.map_values(|n: &str| n@),
            forall|m: int| 0 <= m < k ==> !occurs(value@, #[trigger] all[m]),
        decreases names@.len() - k,
    {
        let name = chars_of(names[k]);
        if occurs_lower(text.as_slice(), name.as_slice()) {
            assert(all[k as int] == name@);
            return true;
        }
        k = k + 1;
    }
    false
}

impl Depth {
    /// The depth that a terminal's environment calls for, asking `var` for
    /// `NO_COLOR`, `COLORTERM`, `TERM` and `TERM_PROGRAM` and for nothing
    /// else: those are the only names it needs `var` to answer. `COLORTERM` is
    /// often lost, under sudo or over SSH, so terminals known for 24-bit
    /// color are recognized by name, and anything that is not plainly
    /// limited gets the 256-color palette rather than sixteen.
    pub fn from_env(var: impl Fn(&str) -> Option<String>) -> (d: Self)
        requires
            var.requires(("NO_COLOR",)),
            var.requires(("COLORTERM",)),
            var.requires(("TERM",)),
            var.requires(("TERM_PROGRAM",)),
        ensures
            exists|no_color: Option<String>, colorterm: Option<String>, term: Option<String>, program: Option<String>|
                {
                    &&& var.ensures(("NO_COLOR",), no_color)
                    &&& var.ensures(("COLORTERM",), colorterm)
                    &&& var.ensures(("TERM",), term)
                    &&& var.ensures(("TERM_PROGRAM",), program)
                    &&& d == env_depth(
                        env_value(no_color),
                        env_value(colorterm),
                        env_value(term),
                        env_value(program),
                    )
                },
    {
        let no_color_value = var("NO_COLOR");
        let colorterm_value = var("COLORTERM");
        let term_value = var("TERM");
        let program_value = var("TERM_PROGRAM");
        let no_color = match &no_color_value { Some(s) => s.clone(), None => String::new() };
        let colorterm = match &colorterm_value { Some(s) => s.clone(), None => String::new() };
        let term = match &term_value { Some(s) => s.clone(), None => String::new() };
        let program = match &program_value { Some(s) => s.clone(), None => String::new() };
        let rgb_names: [&str; 8] = ["direct", "kitty", "ghostty", "alacritty", "foot", "wezterm", "contour", "iterm"];
        let program_names: [&str; 4] = ["iterm", "wezterm", "ghostty", "vscode"];
        assert(rgb_names@.map_values(|n: &str| n@) =~= rgb_terms());
        assert(program_names@.map_values(|n: &str| n@) =~= rgb_programs());
        let d = if !no_color.as_str().is_empty() || same_text(term.as_str(), "dumb") {
            Depth::Mono
        } else if same_text(colorterm.as_str(), "truecolor") || same_text(colorterm.as_str(), "24bit")
            || named_in(&rgb_names, term.as_str()) || named_in(&program_names, program.as_str()) {
            Depth::Rgb
        } else if same_text(term.as_str(), "linux") || same_text(term.as_str(), "vt100") || same_text(term.as_str(), "vt220")
            || same_text(term.as_str(), "ansi") || term.as_str().is_empty() {
            Depth::Basic
        } else {
            Depth::Indexed
        };
        assert(var.ensures(("NO_COLOR",), no_color_value));
        assert(d == env_depth(
            env_value(no_color_value),
            env_value(colorterm_value),
            env_value(term_value),
            env_value(program_value),
        ));
        d
    }
}

} // verus!
