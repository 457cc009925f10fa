//! A grid of pixels shown with block characters. Every terminal draws half
//! blocks, which give a cell two pixels, one above the other. Quadrants give
//! four and sextants six; most current terminals draw them, and a few older
//! ones need a font that has them. A cell shows two colors, so each block of
//! pixels is reduced to the pair that loses least, and the glyph whose
//! pattern tells the two apart.
use crate::buffer::{plain_style, BufferView, Color, Style};
use crate::canvas::{canvas_text, Canvas};
use crate::element::Element;
use crate::geometry::Rect;
use crate::scan::char_from_u32;
use crate::unicode::push_char;
use vstd::prelude::*;

verus! {

/// How many pixels a cell holds.
#[derive(Clone, Copy, Debug, PartialEq, Eq, Structural)]
pub enum Blocks {
    /// One pixel above another: the upper, lower, and full half blocks.
    Half,
    /// Two by two: the quadrant block elements.
    Quadrant,
    /// Two by three, from Unicode's Symbols for Legacy Computing.
    Sextant,
}

impl Default for Blocks {
    fn default() -> (b: Self)
        ensures
            b == Blocks::Half,
    {
        Blocks::Half
    }
}

/// Pixels per cell, across and down.
pub open spec fn per_cell_spec(b: Blocks) -> (usize, usize) {
    match b {
        Blocks::Half => (1, 2),
        Blocks::Quadrant => (2, 2),
        Blocks::Sextant => (2, 3),
    }
}

/// The half blocks' code points, by pattern: nothing, upper, lower, full.
pub open spec fn half_codes() -> Seq<u32> {
    seq![0x20u32, 0x2580, 0x2584, 0x2588]
}

/// The quadrant blocks' code points, by pattern, a bit per quadrant in
/// reading order.
pub open spec fn quadrant_codes() -> Seq<u32> {
    seq![
        0x20u32,
        0x2598,
        0x259d,
        0x2580,
        0x2596,
        0x258c,
        0x259e,
        0x259b,
        0x2597,
        0x259a,
        0x2590,
        0x259c,
        0x2584,
        0x2599,
        0x259f,
        0x2588,
    ]
}

/// The sextant's code point for a pattern: the four that older characters
/// already draw are those, and the block of sextants runs through the rest
/// in order.
pub open spec fn sextant_code(p: u8) -> u32 {
    if p == 0 {
        0x20
    } else if p == 21 {
        0x258c
    } else if p == 42 {
        0x2590
    } else if p == 63 {
        0x2588
    } else {
        let skipped: int = (if p > 21 {
            1int
        } else {
            0int
        }) + (if p > 42 {
            1int
        } else {
            0int
        });
        (0x1FB00 + p - 1 - skipped) as u32
    }
}

/// The code point of the glyph for a pattern of pixels, a bit per pixel in
/// reading order.
pub open spec fn glyph_code(b: Blocks, bits: u8) -> u32 {
    match b {
        Blocks::Half => half_codes()[(bits % 4) as int],
        Blocks::Quadrant => quadrant_codes()[(bits % 16) as int],
        Blocks::Sextant => sextant_code(bits % 64),
    }
}

/// A character's code point.
pub open spec fn code_of(c: char) -> u32 {
    c as u32
}

/// Characters with one code point are one character.
proof fn same_code(a: char, b: char)
    requires
        a as u32 == b as u32,
    ensures
        a == b,
{
}

/// The glyph whose code point is `glyph_code`.
pub open spec fn glyph_char(b: Blocks, bits: u8) -> char {
    choose|c: char| #[trigger] code_of(c) == glyph_code(b, bits)
}

impl Blocks {
    /// Pixels per cell, across and down.
    pub fn per_cell(self) -> (r: (usize, usize))
        ensures
            r == per_cell_spec(self),
    {
        match self {
            Blocks::Half => (1, 2),
            Blocks::Quadrant => (2, 2),
            Blocks::Sextant => (2, 3),
        }
    }

    /// The glyph for a pattern of pixels, a bit per pixel in reading order,
    /// for elements that reduce their own pixels to two colors a cell.
    pub fn glyph(self, bits: u8) -> (c: char)
        ensures
            c as u32 == glyph_code(self, bits),
            c == glyph_char(self, bits),
    {
        let code: u32 = match self {
            Blocks::Half => {
                let p = bits % 4;
                if p == 0 {
                    0x20
                } else if p == 1 {
                    0x2580
                } else if p == 2 {
                    0x2584
                } else {
                    0x2588
                }
            },
            Blocks::Quadrant => {
                let p = bits % 16;
                if p == 0 {
                    0x20
                } else if p == 1 {
                    0x2598
                } else if p == 2 {
                    0x259d
                } else if p == 3 {
                    0x2580
                } else if p == 4 {
                    0x2596
                } else if p == 5 {
                    0x258c
                } else if p == 6 {
                    0x259e
                } else if p == 7 {
                    0x259b
                } else if p == 8 {
                    0x2597
                } else if p == 9 {
                    0x259a
                } else if p == 10 {
                    0x2590
                } else if p == 11 {
                    0x259c
                } else if p == 12 {
                    0x2584
                } else if p == 13 {
                    0x2599
                } else if p == 14 {
                    0x259f
                } else {
                    0x2588
                }
            },
            Blocks::Sextant => {
                let p = bits % 64;
                if p == 0 {
                    0x20
                } else if p == 21 {
                    0x258c
                } else if p == 42 {
                    0x2590
                } else if p == 63 {
                    0x2588
                } else {
                    let skipped: u32 = (if p > 21 {
                        1
                    } else {
                        0
                    }) + (if p > 42 {
                        1
                    } else {
                        0
                    });
                    0x1FB00 + p as u32 - 1 - skipped
                }
            },
        };
        let c = match char_from_u32(code) {
            Some(c) => c,
            None => '\u{2588}',
        };
        proof {
            assert(code_of(c) == glyph_code(self, bits));
            let d = glyph_char(self, bits);
            assert(code_of(d) == glyph_code(self, bits));
            same_code(c, d);
        }
        c
    }
}

/// Whether a character's picture fills the upper left quarter of its cell,
/// as Unicode's block elements draw them: the quadrant characters that name
/// it, the upper and left halves, and the full block.
pub open spec fn fills_upper_left(c: u32) -> bool {
    c == 0x2598 || c == 0x2580 || c == 0x258c || c == 0x2599 || c == 0x259a || c == 0x259b || c
        == 0x259c || c == 0x2588
}

/// Whether a character's picture fills the upper right quarter of its cell.
pub open spec fn fills_upper_right(c: u32) -> bool {
    c == 0x259d || c == 0x2580 || c == 0x2590 || c == 0x259b || c == 0x259c || c == 0x259e || c
        == 0x259f || c == 0x2588
}

/// Whether a character's picture fills the lower left quarter of its cell.
pub open spec fn fills_lower_left(c: u32) -> bool {
    c == 0x2596 || c == 0x2584 || c == 0x258c || c == 0x2599 || c == 0x259b || c == 0x259e || c
        == 0x259f || c == 0x2588
}

/// Whether a character's picture fills the lower right quarter of its cell.
pub open spec fn fills_lower_right(c: u32) -> bool {
    c == 0x2597 || c == 0x2584 || c == 0x2590 || c == 0x2599 || c == 0x259a || c == 0x259c || c
        == 0x259f || c == 0x2588
}

/// Quadrant glyphs draw their pattern: the glyph is a space or a block
/// element, and it fills a quarter of the cell exactly when that quarter's
/// bit is set, bit 0 upper left, bit 1 upper right, bit 2 lower left and
/// bit 3 lower right.
pub proof fn quadrant_glyphs_draw_their_pattern(bits: u8)
    ensures
        ({
            let c = glyph_code(Blocks::Quadrant, bits);
            &&& c == 0x20 || 0x2580 <= c <= 0x259f
            &&& fills_upper_left(c) == (bits % 2 == 1)
            &&& fills_upper_right(c) == ((bits / 2) % 2 == 1)
            &&& fills_lower_left(c) == ((bits / 4) % 2 == 1)
            &&& fills_lower_right(c) == ((bits / 8) % 2 == 1)
        }),
{
    let p = bits % 16;
    assert(bits % 2 == p % 2 && (bits / 2) % 2 == (p / 2) % 2 && (bits / 4) % 2 == (p / 4) % 2 && (bits
        / 8) % 2 == (p / 8) % 2);
    assert(p < 16);
    assert(quadrant_codes()[0] == 0x20);
    assert(quadrant_codes()[1] == 0x2598);
    assert(quadrant_codes()[2] == 0x259d);
    assert(quadrant_codes()[3] == 0x2580);
    assert(quadrant_codes()[4] == 0x2596);
    assert(quadrant_codes()[5] == 0x258c);
    assert(quadrant_codes()[6] == 0x259e);
    assert(quadrant_codes()[7] == 0x259b);
    assert(quadrant_codes()[8] == 0x2597);
    assert(quadrant_codes()[9] == 0x259a);
    assert(quadrant_codes()[10] == 0x2590);
    assert(quadrant_codes()[11] == 0x259c);
    assert(quadrant_codes()[12] == 0x2584);
    assert(quadrant_codes()[13] == 0x2599);
    assert(quadrant_codes()[14] == 0x259f);
    assert(quadrant_codes()[15] == 0x2588);
}

/// Half glyphs draw their pattern: the glyph is a space or a block
/// element, its upper half is filled exactly when bit 0 is set, and its
/// lower half exactly when bit 1 is.
pub proof fn half_glyphs_draw_their_pattern(bits: u8)
    ensures
        ({
            let c = glyph_code(Blocks::Half, bits);
            &&& c == 0x20 || 0x2580 <= c <= 0x259f
            &&& fills_upper_left(c) == (bits % 2 == 1)
            &&& fills_upper_right(c) == (bits % 2 == 1)
            &&& fills_lower_left(c) == ((bits / 2) % 2 == 1)
            &&& fills_lower_right(c) == ((bits / 2) % 2 == 1)
        }),
{
    let p = bits % 4;
    assert(bits % 2 == p % 2 && (bits / 2) % 2 == (p / 2) % 2);
    assert(half_codes()[0] == 0x20);
    assert(half_codes()[1] == 0x2580);
    assert(half_codes()[2] == 0x2584);
    assert(half_codes()[3] == 0x2588);
}

/// Sextant glyphs follow Unicode's sextant block: an empty pattern is a
/// space, the full pattern the full block, the left and right columns the
/// left and right halves, and every other pattern its own character of
/// U+1FB00 to U+1FB3B, in increasing order of the pattern's bits.
pub proof fn sextant_glyphs_follow_the_block(p: u8, q: u8)
    requires
        p < 64,
        q < 64,
    ensures
        sextant_code(0) == 0x20,
        sextant_code(63) == 0x2588,
        sextant_code(21) == 0x258c && fills_upper_left(0x258c) && fills_lower_left(0x258c)
            && !fills_upper_right(0x258c) && !fills_lower_right(0x258c),
        sextant_code(42) == 0x2590 && fills_upper_right(0x2590) && fills_lower_right(0x2590)
            && !fills_upper_left(0x2590) && !fills_lower_left(0x2590),
        sextant_code(1) == 0x1fb00,
        sextant_code(62) == 0x1fb3b,
        p != 0 && p != 21 && p != 42 && p != 63 ==> 0x1fb00 <= sextant_code(p) <= 0x1fb3b,
        p != 0 && p != 21 && p != 42 && p != 63 && q != 0 && q != 21 && q != 42 && q != 63 && p < q
            ==> sextant_code(p) < sextant_code(q),
        glyph_code(Blocks::Sextant, p) == sextant_code(p),
{
}

/// The squared distance between two colors.
pub open spec fn apart(a: [u8; 3], b: [u8; 3]) -> int {
    (a[0] - b[0]) * (a[0] - b[0]) + (a[1] - b[1]) * (a[1] - b[1]) + (a[2] - b[2]) * (a[2] - b[2])
}

/// The squared distance between two channels.
fn channel_apart(x: u8, y: u8) -> (d: u32)
    ensures
        d == (x - y) * (x - y),
        d <= 65025,
{
    let diff: u32 = if x >= y { (x - y) as u32 } else { (y - x) as u32 };
    assert(diff * diff <= 65025) by (nonlinear_arith)
        requires
            diff <= 255,
    ;
    assert(diff * diff == (x - y) * (x - y)) by (nonlinear_arith)
        requires
            diff == x - y || diff == y - x,
    ;
    diff * diff
}

/// The squared distance between two colors.
fn apart_exec(a: [u8; 3], b: [u8; 3]) -> (d: u32)
    ensures
        d == apart(a, b),
        d <= 195075,
{
    channel_apart(a[0], b[0]) + channel_apart(a[1], b[1]) + channel_apart(a[2], b[2])
}

/// Whether two colors are the same.
fn same_color(a: [u8; 3], b: [u8; 3]) -> (r: bool)
    ensures
        r == (a == b),
{
    broadcast use vstd::array::axiom_array_ext_equal;

    let r = a[0] == b[0] && a[1] == b[1] && a[2] == b[2];
    proof {
        if r {
            assert(a =~= b);
        }
    }
    r
}

/// The colors of a block, each once, in the order they first appear.
pub open spec fn distinct(block: Seq<[u8; 3]>) -> Seq<[u8; 3]>
    decreases block.len(),
{
    if block.len() == 0 {
        Seq::empty()
    } else {
        let before = distinct(block.drop_last());
        if before.contains(block.last()) {
            before
        } else {
            before.push(block.last())
        }
    }
}

/// The smaller of two distances.
pub open spec fn nearer(a: int, b: int) -> int {
    if a <= b { a } else { b }
}

/// What a block loses when each pixel takes the nearer of two colors.
pub open spec fn loss(block: Seq<[u8; 3]>, fg: [u8; 3], bg: [u8; 3]) -> int
    decreases block.len(),
{
    if block.len() == 0 {
        0
    } else {
        loss(block.drop_last(), fg, bg) + nearer(apart(block.last(), fg), apart(block.last(), bg))
    }
}

/// The pair kept so far, and what it loses.
pub struct Best {
    pub fg: [u8; 3],
    pub bg: [u8; 3],
    pub loss: int,
}

/// The pairs of colors from `(i, j)` on, in order, each replacing the pair
/// kept when it loses strictly less.
pub open spec fn best_from(colors: Seq<[u8; 3]>, block: Seq<[u8; 3]>, i: int, j: int, acc: Best) -> Best
    decreases colors.len() - i, colors.len() - j,
{
    if i < 0 || i >= colors.len() {
        acc
    } else if j >= colors.len() || j <= i {
        best_from(colors, block, i + 1, i + 2, acc)
    } else {
        let l = loss(block, colors[i], colors[j]);
        best_from(
            colors,
            block,
            i,
            j + 1,
            if l < acc.loss {
                Best { fg: colors[i], bg: colors[j], loss: l }
            } else {
                acc
            },
        )
    }
}

/// The pair a block is reduced to: of every pair of its colors, the first
/// that loses least; a block of one color is that color twice.
pub open spec fn best_pair(block: Seq<[u8; 3]>) -> Best {
    let colors = distinct(block);
    best_from(colors, block, 0, 1, Best { fg: colors[0], bg: colors[0], loss: u32::MAX as int })
}

/// The value of bit `k`: two to the power `k`.
pub open spec fn bit(k: int) -> int
    decreases k,
{
    if k <= 0 {
        1
    } else {
        2 * bit(k - 1)
    }
}

/// The bits of the first `k` pixels: a bit for each that is nearer the
/// first color than the second.
pub open spec fn bits_of(block: Seq<[u8; 3]>, fg: [u8; 3], bg: [u8; 3], k: int) -> int
    decreases k,
{
    if k <= 0 || k > block.len() {
        0
    } else {
        bits_of(block, fg, bg, k - 1) + if fg != bg && apart(block[k - 1], fg) < apart(
            block[k - 1],
            bg,
        ) {
            bit(k - 1)
        } else {
            0
        }
    }
}

/// What `split` gives for a block.
pub open spec fn split_spec(block: Seq<[u8; 3]>) -> ([u8; 3], [u8; 3], u8) {
    if block.len() == 0 {
        ([0u8, 0, 0], [0u8, 0, 0], 0)
    } else {
        let b = best_pair(block);
        (b.fg, b.bg, bits_of(block, b.fg, b.bg, block.len() as int) as u8)
    }
}

/// The bits of the first `k` pixels fit below bit `k`.
proof fn bits_below(block: Seq<[u8; 3]>, fg: [u8; 3], bg: [u8; 3], k: int)
    requires
        0 <= k <= block.len(),
    ensures
        0 <= bits_of(block, fg, bg, k) < bit(k),
    decreases k,
{
    if k > 0 {
        bits_below(block, fg, bg, k - 1);
    }
}

/// Whether a color is among those found.
fn has_color(colors: &Vec<[u8; 3]>, c: [u8; 3]) -> (r: bool)
    ensures
        r == colors@.contains(c),
{
    let mut i: usize = 0;
    while i < colors.len()
        invariant
            i <= colors@.len(),
            forall|j: int| 0 <= j < i ==> colors@[j] != c,
        decreases colors@.len() - i,
    {
        if same_color(colors[i], c) {
            assert(colors@[i as int] == c);
            return true;
        }
        i = i + 1;
    }
    false
}

/// What a block loses when each pixel takes the nearer of two colors.
fn loss_of(block: &[[u8; 3]], fg: [u8; 3], bg: [u8; 3]) -> (l: u32)
    requires
        block@.len() <= 8,
    ensures
        l == loss(block@, fg, bg),
{
    let mut l: u32 = 0;
    let mut k: usize = 0;
    while k < block.len()
        invariant
            k <= block@.len() <= 8,
            l == loss(block@.take(k as int), fg, bg),
            l <= 195075 * k,
        decreases block@.len() - k,
    {
        assert(block@.take(k + 1).drop_last() =~= block@.take(k as int));
        assert(block@.take(k + 1).last() == block@[k as int]);
        let a = apart_exec(block[k], fg);
        let b = apart_exec(block[k], bg);
        l = l + if a <= b { a } else { b };
        k = k + 1;
    }
    assert(block@.take(block@.len() as int) =~= block@);
    l
}

/// Reduce a block's pixels to two colors: of every pair present, the one
/// that loses least when each pixel takes the nearer. Returns the pair and
/// a bit per pixel that takes the first, in reading order; a block of one
/// color, or none, has no bits set. A block holds at most eight pixels, a
/// bit each.
pub fn split(block: &[[u8; 3]]) -> (r: ([u8; 3], [u8; 3], u8))
    requires
        block@.len() <= 8,
    ensures
        r == split_spec(block@),
{
    if block.len() == 0 {
        return ([0, 0, 0], [0, 0, 0], 0);
    }
    let ghost b = block@;
    let mut colors: Vec<[u8; 3]> = Vec::new();
    let mut k: usize = 0;
    while k < block.len()
        invariant
            k <= b.len(),
            b == block@,
            colors@ == distinct(b.take(k as int)),
            k > 0 ==> colors@.len() > 0,
            colors@.len() <= k,
        decreases b.len() - k,
    {
        assert(b.take(k + 1).drop_last() =~= b.take(k as int));
        assert(b.take(k + 1).last() == b[k as int]);
        let pixel = block[k];
        if !has_color(&colors, pixel) {
            colors.push(pixel);
        }
        k = k + 1;
    }
    assert(b.take(b.len() as int) =~= b);
    let ghost cs = colors@;
    let ghost total = best_pair(b);
    let mut fg = colors[0];
    let mut bg = colors[0];
    let mut best: u32 = u32::MAX;
    let mut i: usize = 0;
    while i < colors.len()
        invariant
            i <= cs.len(),
            cs == colors@,
            cs.len() <= 8,
            b == block@,
            b.len() <= 8,
            total == best_pair(b),
            cs == distinct(b),
            best_from(cs, b, i as int, i + 1, Best { fg, bg, loss: best as int }) == total,
        decreases cs.len() - i,
    {
        let mut j = i + 1;
        while j < colors.len()
            invariant
                i < j <= cs.len() || (j == i + 1 && i < cs.len()),
                i < cs.len(),
                cs == colors@,
                cs.len() <= 8,
                b == block@,
                b.len() <= 8,
                best_from(cs, b, i as int, j as int, Best { fg, bg, loss: best as int }) == total,
            decreases cs.len() - j,
        {
            let l = loss_of(block, colors[i], colors[j]);
            if l < best {
                fg = colors[i];
                bg = colors[j];
                best = l;
            }
            j = j + 1;
        }
        i = i + 1;
    }
    let mut bits: u32 = 0;
    let mut mask: u32 = 1;
    let same = same_color(fg, bg);
    let mut k: usize = 0;
    while k < block.len()
        invariant
            k <= b.len() <= 8,
            b == block@,
            bits == bits_of(b, fg, bg, k as int),
            mask == bit(k as int),
            same == (fg == bg),
        decreases b.len() - k,
    {
        proof {
            bits_below(b, fg, bg, k as int);
            assert(bit(k as int) <= 128) by {
                reveal_with_fuel(bit, 9);
            }
        }
        let pixel = block[k];
        if !same && apart_exec(pixel, fg) < apart_exec(pixel, bg) {
            bits = bits + mask;
        }
        mask = mask * 2;
        k = k + 1;
    }
    proof {
        bits_below(b, fg, bg, b.len() as int);
        assert(bit(b.len() as int) <= 256) by {
            reveal_with_fuel(bit, 9);
        }
    }
    (fg, bg, bits as u8)
}

/// A block loses at most the largest distance per pixel.
proof fn loss_bound(block: Seq<[u8; 3]>, fg: [u8; 3], bg: [u8; 3])
    ensures
        0 <= loss(block, fg, bg) <= 195075 * block.len(),
    decreases block.len(),
{
    if block.len() > 0 {
        loss_bound(block.drop_last(), fg, bg);
        let p = block.last();
        assert(0 <= apart(p, fg) <= 195075) by (nonlinear_arith)
            requires
                apart(p, fg) == (p[0] - fg[0]) * (p[0] - fg[0]) + (p[1] - fg[1]) * (p[1] - fg[1]) + (p[2]
                    - fg[2]) * (p[2] - fg[2]),
                0 <= p[0] <= 255,
                0 <= p[1] <= 255,
                0 <= p[2] <= 255,
                0 <= fg[0] <= 255,
                0 <= fg[1] <= 255,
                0 <= fg[2] <= 255,
        ;
        assert(0 <= apart(p, bg) <= 195075) by (nonlinear_arith)
            requires
                apart(p, bg) == (p[0] - bg[0]) * (p[0] - bg[0]) + (p[1] - bg[1]) * (p[1] - bg[1]) + (p[2]
                    - bg[2]) * (p[2] - bg[2]),
                0 <= p[0] <= 255,
                0 <= p[1] <= 255,
                0 <= p[2] <= 255,
                0 <= bg[0] <= 255,
                0 <= bg[1] <= 255,
                0 <= bg[2] <= 255,
        ;
    }
}

/// Whether the pair `(p, q)` is among those compared from `(i, j)` on.
pub open spec fn visited(n: int, i: int, j: int, p: int, q: int) -> bool {
    ||| (p == i && j <= q < n && p < q)
    ||| (i < p < q < n)
}

/// The pair kept from `(i, j)` on loses no more than the one kept before,
/// nor than any pair compared, and is either the one kept before or a pair
/// whose loss it records.
proof fn best_from_least(cs: Seq<[u8; 3]>, b: Seq<[u8; 3]>, i: int, j: int, acc: Best)
    requires
        0 <= i < j,
    ensures
        best_from(cs, b, i, j, acc).loss <= acc.loss,
        forall|p: int, q: int|
            visited(cs.len() as int, i, j, p, q) ==> best_from(cs, b, i, j, acc).loss <= loss(
                b,
                cs[p],
                cs[q],
            ),
        best_from(cs, b, i, j, acc) == acc || best_from(cs, b, i, j, acc).loss == loss(
            b,
            best_from(cs, b, i, j, acc).fg,
            best_from(cs, b, i, j, acc).bg,
        ),
    decreases cs.len() - i, cs.len() - j,
{
    let n = cs.len() as int;
    if i >= n {
    } else if j >= n {
        best_from_least(cs, b, i + 1, i + 2, acc);
        let r = best_from(cs, b, i, j, acc);
        assert forall|p: int, q: int| visited(n, i, j, p, q) implies r.loss <= loss(b, cs[p], cs[q]) by {
            assert(visited(n, i + 1, i + 2, p, q));
        }
    } else {
        let l = loss(b, cs[i], cs[j]);
        let next = if l < acc.loss {
            Best { fg: cs[i], bg: cs[j], loss: l }
        } else {
            acc
        };
        best_from_least(cs, b, i, j + 1, next);
        let r = best_from(cs, b, i, j, acc);
        assert forall|p: int, q: int| visited(n, i, j, p, q) implies r.loss <= loss(b, cs[p], cs[q]) by {
            if !(p == i && q == j) {
                assert(visited(n, i, j + 1, p, q));
            }
        }
    }
}

/// Of every pair of a block's colors, none loses less than the pair that
/// `split` keeps: each pixel taking the nearer of the two, the kept pair's
/// total squared distance is the least.
pub proof fn split_loses_least(block: Seq<[u8; 3]>, i: int, j: int)
    requires
        0 < block.len() <= 8,
        0 <= i < j < distinct(block).len(),
    ensures
        loss(block, split_spec(block).0, split_spec(block).1) <= loss(
            block,
            distinct(block)[i],
            distinct(block)[j],
        ),
{
    let cs = distinct(block);
    let init = Best { fg: cs[0], bg: cs[0], loss: u32::MAX as int };
    best_from_least(cs, block, 0, 1, init);
    assert(visited(cs.len() as int, 0, 1, i, j));
    assert(visited(cs.len() as int, 0, 1, 0, 1));
    loss_bound(block, cs[0], cs[1]);
}

/// Whether pixel `k` of a block is drawn in the first color.
pub open spec fn lit(block: Seq<[u8; 3]>, fg: [u8; 3], bg: [u8; 3], k: int) -> int {
    if fg != bg && apart(block[k], fg) < apart(block[k], bg) {
        1
    } else {
        0
    }
}

/// Bits add: the value of bit `a + b` is that of `a` times that of `b`.
proof fn bit_add(a: int, b: int)
    requires
        a >= 0,
        b >= 0,
    ensures
        bit(a + b) == bit(a) * bit(b),
        bit(a) > 0,
    decreases b,
{
    if b > 0 {
        bit_add(a, b - 1);
        assert(bit(a + b) == 2 * bit(a + b - 1));
        assert(bit(b) == 2 * bit(b - 1));
        assert(bit(a) * (2 * bit(b - 1)) == 2 * (bit(a) * bit(b - 1))) by (nonlinear_arith);
    } else {
        bit_positive(a);
    }
}

/// Every bit has a positive value.
proof fn bit_positive(a: int)
    ensures
        bit(a) > 0,
    decreases a,
{
    if a > 0 {
        bit_positive(a - 1);
    }
}

/// The bits of the first `n` pixels are those below pixel `k`, pixel `k`'s
/// own, and a multiple of the bit above it.
proof fn bits_split(block: Seq<[u8; 3]>, fg: [u8; 3], bg: [u8; 3], k: int, n: int) -> (h: int)
    requires
        0 <= k < n <= block.len(),
    ensures
        h >= 0,
        bits_of(block, fg, bg, n) == bits_of(block, fg, bg, k) + lit(block, fg, bg, k) * bit(k) + bit(k + 1) * h,
    decreases n - k,
{
    if n == k + 1 {
        assert(bit(k + 1) * 0 == 0) by (nonlinear_arith);
        0
    } else {
        let h0 = bits_split(block, fg, bg, k, n - 1);
        let l = lit(block, fg, bg, n - 1);
        bit_add(k + 1, n - 1 - (k + 1));
        bit_positive(n - 1 - (k + 1));
        let h = h0 + l * bit(n - 1 - (k + 1));
        if l == 1 {
            assert(l * bit(n - 1) == bit(n - 1));
        } else {
            assert(l * bit(n - 1) == 0);
        }
        assert(bits_of(block, fg, bg, n) == bits_of(block, fg, bg, n - 1) + l * bit(n - 1));
        assert(bit(k + 1) * h == bit(k + 1) * h0 + l * (bit(k + 1) * bit(n - 1 - (k + 1)))) by (nonlinear_arith)
            requires
                h == h0 + l * bit(n - 1 - (k + 1)),
        ;
        assert(l * bit(n - 1 - (k + 1)) >= 0) by (nonlinear_arith)
            requires
                l == 0 || l == 1,
                bit(n - 1 - (k + 1)) > 0,
        ;
        h
    }
}

/// A pixel shows in the glyph's color exactly when it is nearer that color
/// than the one behind it: bit `k` of the pattern `split` gives a block is
/// set exactly when pixel `k` is nearer the first color, the two colors
/// being different.
pub proof fn split_lights_the_nearer_pixels(block: Seq<[u8; 3]>, k: int)
    requires
        0 < block.len() <= 8,
        0 <= k < block.len(),
    ensures
        ({
            let (fg, bg, bits) = split_spec(block);
            ((bits as int / bit(k)) % 2 == 1) == (fg != bg && apart(block[k], fg) < apart(block[k], bg))
        }),
{
    let (fg, bg, bits) = split_spec(block);
    let n = block.len() as int;
    let total = bits_of(block, fg, bg, n);
    bits_below(block, fg, bg, n);
    bits_below(block, fg, bg, k);
    assert(bit(8) == 256) by {
        reveal_with_fuel(bit, 9);
    }
    bit_add(n, 8 - n);
    bit_positive(8 - n);
    assert(bit(n) <= 256) by (nonlinear_arith)
        requires
            bit(8) == bit(n) * bit(8 - n),
            bit(8) == 256,
            bit(8 - n) > 0,
            bit(n) > 0,
    ;
    assert(bits as int == total);
    let h = bits_split(block, fg, bg, k, n);
    let b = bit(k);
    bit_positive(k);
    let l = lit(block, fg, bg, k);
    assert(bit(k + 1) == 2 * b);
    let low = bits_of(block, fg, bg, k);
    assert(total == (l + 2 * h) * b + low) by (nonlinear_arith)
        requires
            total == low + l * b + (2 * b) * h,
    ;
    vstd::arithmetic::div_mod::lemma_fundamental_div_mod_converse(total, b, l + 2 * h, low);
}

/// The color of a pixel that was never set.
pub open spec fn black() -> [u8; 3] {
    [0u8, 0u8, 0u8]
}

/// What an image holds: its size in pixels, the pixels row by row from the
/// top, and the blocks that show them.
pub struct PixelsView {
    pub width: nat,
    pub height: nat,
    pub data: Seq<[u8; 3]>,
    pub blocks: Blocks,
}

impl PixelsView {
    /// There is a pixel for each place in the image.
    pub open spec fn wf(self) -> bool {
        self.data.len() == self.width * self.height
    }

    /// The pixel at column `x` of row `y`.
    pub open spec fn at(self, x: int, y: int) -> [u8; 3] {
        self.data[y * self.width + x]
    }
}

/// The cells `pixels` need at `per` a cell, rounding up, at most the
/// largest `u16`.
pub open spec fn cells_for(pixels: nat, per: nat) -> int {
    let n = pixels / per + if pixels % per != 0 {
        1int
    } else {
        0int
    };
    if n > u16::MAX {
        u16::MAX as int
    } else {
        n
    }
}

/// A pixel of a row lies before every pixel of the rows beneath it.
proof fn row_major(w: int, x: int, y: int, x2: int, y2: int)
    requires
        0 <= x < w,
        0 <= y < y2,
        0 <= x2,
    ensures
        y * w + x < y2 * w + x2,
        0 <= y * w + x,
{
    assert(y * w + x < y2 * w + x2) by (nonlinear_arith)
        requires
            0 <= x < w,
            0 <= y < y2,
            0 <= x2,
    ;
    assert(0 <= y * w) by (nonlinear_arith)
        requires
            0 <= y,
            0 <= w,
    ;
}

/// The place of pixel `(x, y)` is within an image of `w` by `h`.
proof fn in_image(w: int, h: int, x: int, y: int)
    requires
        0 <= x < w,
        0 <= y < h,
    ensures
        0 <= y * w + x < w * h,
{
    assert(0 <= y * w + x < w * h) by (nonlinear_arith)
        requires
            0 <= x < w,
            0 <= y < h,
    ;
}

/// An opaque RGB image, measured in pixels, that paints itself with
/// blocks. Its layout size is the cells its pixels need. Given less, it is
/// clipped; given more, it sits at the top left and the rest of the area is
/// left as the parent painted it.
pub struct Pixels {
    width: usize,
    height: usize,
    data: Vec<[u8; 3]>,
    pub blocks: Blocks,
}

impl View for Pixels {
    type V = PixelsView;

    closed spec fn view(&self) -> PixelsView {
        PixelsView {
            width: self.width as nat,
            height: self.height as nat,
            data: self.data@,
            blocks: self.blocks,
        }
    }
}

impl Pixels {
    /// A black image.
    pub fn new(width: usize, height: usize) -> (p: Self)
        requires
            width * height <= usize::MAX,
        ensures
            p@ == (PixelsView {
                width: width as nat,
                height: height as nat,
                data: Seq::new((width * height) as nat, |i: int| black()),
                blocks: Blocks::Half,
            }),
            p@.wf(),
    {
        let n = width * height;
        let mut data: Vec<[u8; 3]> = Vec::new();
        let mut i: usize = 0;
        while i < n
            invariant
                i <= n,
                data@ == Seq::new(i as nat, |k: int| black()),
            decreases n - i,
        {
            data.push([0, 0, 0]);
            assert(data@ =~= Seq::new((i + 1) as nat, |k: int| black()));
            i = i + 1;
        }
        Pixels { width, height, data, blocks: Blocks::Half }
    }

    /// The image's size in pixels, across and down.
    pub fn size(&self) -> (s: (usize, usize))
        ensures
            s.0 == self@.width,
            s.1 == self@.height,
    {
        (self.width, self.height)
    }

    /// The cells the image takes: enough for every pixel, rounding up.
    pub fn cells(&self) -> (c: (u16, u16))
        ensures
            c.0 == cells_for(self@.width, per_cell_spec(self@.blocks).0 as nat),
            c.1 == cells_for(self@.height, per_cell_spec(self@.blocks).1 as nat),
    {
        let (across, down) = self.blocks.per_cell();
        (cells_exec(self.width, across), cells_exec(self.height, down))
    }

    /// Choose how cells are divided into pixels; the pixels stay as they are.
    pub fn set_blocks(&mut self, blocks: Blocks)
        ensures
            final(self)@ == (PixelsView { blocks, ..old(self)@ }),
    {
        self.blocks = blocks;
    }

    /// Change the size, keeping the pixels that still fit; new ones are
    /// black.
    pub fn resize(&mut self, width: usize, height: usize)
        requires
            old(self)@.wf(),
            width * height <= usize::MAX,
        ensures
            final(self)@.wf(),
            final(self)@.width == width,
            final(self)@.height == height,
            final(self)@.blocks == old(self)@.blocks,
            forall|x: int, y: int|
                0 <= x < width && 0 <= y < height ==> #[trigger] final(self)@.at(x, y) == if x
                    < old(self)@.width && y < old(self)@.height {
                    old(self)@.at(x, y)
                } else {
                    black()
                },
    {
        if width == self.width && height == self.height {
            return;
        }
        let ghost old_view = self@;
        let mut data: Vec<[u8; 3]> = Vec::new();
        let mut y: usize = 0;
        while y < height
            invariant
                y <= height,
                width * height <= usize::MAX,
                self@ == old_view,
                old_view.wf(),
                data@.len() == y * width,
                forall|x2: int, y2: int|
                    0 <= x2 < width && 0 <= y2 < y ==> #[trigger] data@[y2 * width + x2] == if x2
                        < old_view.width && y2 < old_view.height {
                        old_view.at(x2, y2)
                    } else {
                        black()
                    },
            decreases height - y,
        {
            let mut x: usize = 0;
            let ghost row_start = data@;
            while x < width
                invariant
                    x <= width,
                    y < height,
                    width * height <= usize::MAX,
                    self@ == old_view,
                    old_view.wf(),
                    data@.len() == y * width + x,
                    data@.take(y * width) == row_start,
                    row_start.len() == y * width,
                    forall|x2: int, y2: int|
                        0 <= x2 < width && 0 <= y2 < y ==> #[trigger] row_start[y2 * width + x2]
                            == if x2 < old_view.width && y2 < old_view.height {
                            old_view.at(x2, y2)
                        } else {
                            black()
                        },
                    forall|x2: int|
                        0 <= x2 < x ==> #[trigger] data@[y * width + x2] == if x2 < old_view.width
                            && y < old_view.height {
                            old_view.at(x2, y as int)
                        } else {
                            black()
                        },
                decreases width - x,
            {
                proof {
                    in_image(width as int, height as int, x as int, y as int);
                }
                let stored = self.data.len();
                let pixel = if x < self.width && y < self.height {
                    proof {
                        in_image(self.width as int, self.height as int, x as int, y as int);
                        assert(y * self.width <= y * self.width + x);
                    }
                    self.data[y * self.width + x]
                } else {
                    [0, 0, 0]
                };
                let ghost before = data@;
                data.push(pixel);
                proof {
                    assert(data@.take(y * width) =~= row_start) by {
                        assert forall|k: int| 0 <= k < y * width implies data@[k] == before[k] by {}
                    }
                    assert forall|x2: int| 0 <= x2 < x + 1 implies #[trigger] data@[y * width + x2] == if x2
                        < old_view.width && y < old_view.height {
                        old_view.at(x2, y as int)
                    } else {
                        black()
                    } by {
                        if x2 < x {
                            assert(data@[y * width + x2] == before[y * width + x2]);
                        }
                    }
                }
                x = x + 1;
            }
            proof {
                assert((y + 1) * width == y * width + width) by (nonlinear_arith);
                assert forall|x2: int, y2: int|
                    0 <= x2 < width && 0 <= y2 < y + 1 implies #[trigger] data@[y2 * width + x2] == if x2
                        < old_view.width && y2 < old_view.height {
                        old_view.at(x2, y2)
                    } else {
                        black()
                    } by {
                    if y2 < y {
                        row_major(width as int, x2, y2, 0, y as int);
                        assert(data@.take(y * width)[y2 * width + x2] == data@[y2 * width + x2]);
                    }
                }
            }
            y = y + 1;
        }
        assert(height * width == width * height) by (nonlinear_arith);
        self.data = data;
        self.width = width;
        self.height = height;
    }
}

/// The cells `pixels` need at `per` a cell, rounding up, at most the
/// largest `u16`.
fn cells_exec(pixels: usize, per: usize) -> (c: u16)
    requires
        per > 0,
    ensures
        c == cells_for(pixels as nat, per as nat),
{
    let q = pixels / per;
    assert(pixels % per != 0 ==> q < usize::MAX) by (nonlinear_arith)
        requires
            per > 0,
            q == pixels / per,
            pixels <= usize::MAX,
    ;
    let n = if pixels % per != 0 { q + 1 } else { q };
    if n > 65535 {
        65535
    } else {
        n as u16
    }
}

impl Pixels {
    /// Give every pixel one color.
    pub fn fill(&mut self, rgb: [u8; 3])
        requires
            old(self)@.wf(),
        ensures
            final(self)@ == (PixelsView {
                data: Seq::new(old(self)@.data.len(), |i: int| rgb),
                ..old(self)@
            }),
            final(self)@.wf(),
    {
        let n = self.data.len();
        let mut i: usize = 0;
        while i < n
            invariant
                i <= n == self.data@.len(),
                self.width == old(self).width,
                self.height == old(self).height,
                self.blocks == old(self).blocks,
                forall|k: int| 0 <= k < i ==> self.data@[k] == rgb,
            decreases n - i,
        {
            self.data.set(i, rgb);
            i = i + 1;
        }
        assert(self.data@ =~= Seq::new(old(self)@.data.len(), |i: int| rgb));
    }

    /// Set a pixel; one outside the image is ignored.
    pub fn set(&mut self, x: usize, y: usize, rgb: [u8; 3])
        requires
            old(self)@.wf(),
        ensures
            final(self)@.wf(),
            final(self)@ == if x < old(self)@.width && y < old(self)@.height {
                PixelsView {
                    data: old(self)@.data.update(y * old(self)@.width + x, rgb),
                    ..old(self)@
                }
            } else {
                old(self)@
            },
    {
        if x < self.width && y < self.height {
            let len = self.data.len();
            proof {
                in_image(self.width as int, self.height as int, x as int, y as int);
                assert(y * self.width <= y * self.width + x);
            }
            self.data.set(y * self.width + x, rgb);
        }
    }

    /// The pixel at column `x` of row `y`, if the image has one there.
    pub fn get(&self, x: usize, y: usize) -> (p: Option<[u8; 3]>)
        requires
            self@.wf(),
        ensures
            p == if x < self@.width && y < self@.height {
                Some(self@.at(x as int, y as int))
            } else {
                None
            },
    {
        if x < self.width && y < self.height {
            let len = self.data.len();
            proof {
                in_image(self.width as int, self.height as int, x as int, y as int);
                assert(y * self.width <= y * self.width + x);
            }
            Some(self.data[y * self.width + x])
        } else {
            None
        }
    }

    /// Copy from tightly packed RGBA bytes, row by row from the top; alpha
    /// is ignored. Bytes beyond the image are ignored, and missing ones
    /// leave pixels as they were.
    pub fn write(&mut self, rgba: &[u8])
        requires
            old(self)@.wf(),
        ensures
            final(self)@.wf(),
            final(self)@ == (PixelsView {
                data: Seq::new(
                    old(self)@.data.len(),
                    |k: int|
                        if 4 * k + 4 <= rgba@.len() {
                            [rgba@[4 * k], rgba@[4 * k + 1], rgba@[4 * k + 2]]
                        } else {
                            old(self)@.data[k]
                        },
                ),
                ..old(self)@
            }),
    {
        let n = self.data.len();
        let total = rgba.len();
        let chunks = total / 4;
        let count = if n <= chunks { n } else { chunks };
        let mut k: usize = 0;
        while k < count
            invariant
                k <= count <= n == self.data@.len(),
                count <= rgba@.len() / 4,
                count == n || count == rgba@.len() / 4,
                total == rgba@.len(),
                self.width == old(self).width,
                self.height == old(self).height,
                self.blocks == old(self).blocks,
                forall|j: int| 0 <= j < k ==> self.data@[j] == [rgba@[4 * j], rgba@[4 * j + 1], rgba@[4 * j + 2]],
                forall|j: int| k <= j < n ==> self.data@[j] == old(self).data@[j],
            decreases count - k,
        {
            assert(4 * k + 4 <= rgba@.len()) by (nonlinear_arith)
                requires
                    k < count,
                    count <= rgba@.len() / 4,
            ;
            let at = 4 * k;
            let pixel = [rgba[at], rgba[at + 1], rgba[at + 2]];
            self.data.set(k, pixel);
            k = k + 1;
        }
        assert forall|j: int| count <= j < n implies !(4 * j + 4 <= rgba@.len()) && #[trigger] self.data@[j]
            == old(self).data@[j] by {
            if count == rgba@.len() / 4 {
                assert(!(4 * j + 4 <= rgba@.len())) by (nonlinear_arith)
                    requires
                        j >= count,
                        count == rgba@.len() / 4,
                ;
            }
        }
        assert forall|j: int| 0 <= j < count implies 4 * j + 4 <= rgba@.len() && #[trigger] self.data@[j]
            == [rgba@[4 * j], rgba@[4 * j + 1], rgba@[4 * j + 2]] by {
            assert(4 * j + 4 <= rgba@.len()) by (nonlinear_arith)
                requires
                    j < count,
                    count <= rgba@.len() / 4,
            ;
        }
        assert(self.data@ =~= Seq::new(
            old(self)@.data.len(),
            |k: int|
                if 4 * k + 4 <= rgba@.len() {
                    [rgba@[4 * k], rgba@[4 * k + 1], rgba@[4 * k + 2]]
                } else {
                    old(self)@.data[k]
                },
        ));
    }
}

/// A pixel of the image, or black outside it.
pub open spec fn pixel_or_black(v: PixelsView, x: int, y: int) -> [u8; 3] {
    if 0 <= x < v.width && 0 <= y < v.height {
        v.at(x, y)
    } else {
        black()
    }
}

/// The pixels of a cell whose top left pixel is `(x0, y0)`, `across` wide,
/// their first `d` rows in reading order.
pub open spec fn cell_pixels(v: PixelsView, x0: int, y0: int, across: int, d: int) -> Seq<[u8; 3]>
    decreases d,
{
    if d <= 0 {
        Seq::empty()
    } else {
        cell_pixels(v, x0, y0, across, d - 1) + Seq::new(
            across as nat,
            |dx: int| pixel_or_black(v, x0 + dx, y0 + d - 1),
        )
    }
}


/// A cell's pixels come in reading order: row after row, left to right
/// within each, so pixel `(dx, dy)` of the cell is at `dy * across + dx`;
/// pixels past the image's edge are black.
pub proof fn cell_pixels_in_reading_order(v: PixelsView, x0: int, y0: int, across: int, d: int, dx: int, dy: int)
    requires
        across >= 0,
        d >= 0,
        0 <= dx < across,
        0 <= dy < d,
    ensures
        cell_pixels(v, x0, y0, across, d).len() == across * d,
        cell_pixels(v, x0, y0, across, d)[dy * across + dx] == pixel_or_black(v, x0 + dx, y0 + dy),
    decreases d,
{
    cell_pixels_len(v, x0, y0, across, d - 1);
    let prev = cell_pixels(v, x0, y0, across, d - 1);
    let row = Seq::new(across as nat, |k: int| pixel_or_black(v, x0 + k, y0 + d - 1));
    assert(cell_pixels(v, x0, y0, across, d) =~= prev + row);
    assert(prev.len() == across * (d - 1)) by {
        if d == 1 {
            assert(across * (d - 1) == 0) by (nonlinear_arith)
                requires
                    d == 1,
            ;
        }
    }
    assert(across * d == across * (d - 1) + across) by (nonlinear_arith);
    assert((prev + row).len() == across * d);
    if dy < d - 1 {
        cell_pixels_in_reading_order(v, x0, y0, across, d - 1, dx, dy);
        assert(dy * across + dx < (d - 1) * across) by (nonlinear_arith)
            requires
                dy < d - 1,
                dx < across,
                0 <= dy,
                0 <= dx,
        {
            assert((dy + 1) * across <= (d - 1) * across);
            assert(dy * across + across == (dy + 1) * across);
        }
        assert((d - 1) * across == across * (d - 1)) by (nonlinear_arith);
    } else {
        assert(dy * across == across * (d - 1)) by (nonlinear_arith)
            requires
                dy == d - 1,
        ;
        assert(row[dx] == pixel_or_black(v, x0 + dx, y0 + d - 1));
    }
}

/// A cell holds `across` pixels for each of its rows.
proof fn cell_pixels_len(v: PixelsView, x0: int, y0: int, across: int, d: int)
    requires
        across >= 0,
    ensures
        cell_pixels(v, x0, y0, across, d).len() == if d <= 0 { 0 } else { across * d },
    decreases d,
{
    if d > 0 {
        cell_pixels_len(v, x0, y0, across, d - 1);
        assert(across * d == across * (d - 1) + across) by (nonlinear_arith);
        if d - 1 <= 0 {
            assert(across * d == across) by (nonlinear_arith)
                requires
                    d == 1,
            ;
        }
    }
}

/// A cell's two colors, the first as the glyph and the second behind it.
pub open spec fn cell_style(fg: [u8; 3], bg: [u8; 3]) -> Style {
    Style { fg: Color::Rgb(fg[0], fg[1], fg[2]), bg: Color::Rgb(bg[0], bg[1], bg[2]), ..plain_style() }
}

/// What painting the cell at `(col, row)` makes of the frame.
pub open spec fn paint_cell(b: BufferView, origin: (i32, i32), clip: Rect, v: PixelsView, col: int, row: int) -> BufferView {
    let (across, down) = per_cell_spec(v.blocks);
    let (fg, bg, bits) = split_spec(cell_pixels(v, col * across, row * down, across as int, down as int));
    canvas_text(b, origin, clip, col as i32, row as i32, seq![glyph_char(v.blocks, bits)], cell_style(fg, bg))
}

/// The cells of a row from `col` to `columns`, left to right.
pub open spec fn paint_cells(
    b: BufferView,
    origin: (i32, i32),
    clip: Rect,
    v: PixelsView,
    row: int,
    col: int,
    columns: int,
) -> BufferView
    decreases columns - col,
{
    if col < 0 || col >= columns {
        b
    } else {
        paint_cells(paint_cell(b, origin, clip, v, col, row), origin, clip, v, row, col + 1, columns)
    }
}

/// The rows from `row` to `last`, top to bottom.
pub open spec fn paint_pixel_rows(
    b: BufferView,
    origin: (i32, i32),
    clip: Rect,
    v: PixelsView,
    row: int,
    last: int,
    columns: int,
) -> BufferView
    decreases last - row,
{
    if row >= last {
        b
    } else {
        paint_pixel_rows(paint_cells(b, origin, clip, v, row, 0, columns), origin, clip, v, row + 1, last, columns)
    }
}

impl Pixels {
    /// The pixels of the cell at `(col, row)`, row by row.
    fn cell_block(&self, col: usize, row: usize, across: usize, down: usize) -> (block: Vec<[u8; 3]>)
        requires
            self@.wf(),
            (across, down) == per_cell_spec(self@.blocks),
            col <= u16::MAX,
            row <= u16::MAX,
        ensures
            block@ == cell_pixels(self@, col * across, row * down, across as int, down as int),
            block@.len() <= 8,
    {
        let mut block: Vec<[u8; 3]> = Vec::new();
        let ghost x0 = col * across;
        let ghost y0 = row * down;
        let mut dy: usize = 0;
        while dy < down
            invariant
                dy <= down,
                self@.wf(),
                (across, down) == per_cell_spec(self@.blocks),
                col <= u16::MAX,
                row <= u16::MAX,
                x0 == col * across,
                y0 == row * down,
                block@ == cell_pixels(self@, x0, y0, across as int, dy as int),
                block@.len() == dy * across,
            decreases down - dy,
        {
            let ghost start = block@;
            let mut dx: usize = 0;
            while dx < across
                invariant
                    dx <= across,
                    dy < down,
                    self@.wf(),
                    (across, down) == per_cell_spec(self@.blocks),
                    col <= u16::MAX,
                    row <= u16::MAX,
                    x0 == col * across,
                    y0 == row * down,
                    start == cell_pixels(self@, x0, y0, across as int, dy as int),
                    block@ == start + Seq::new(
                        dx as nat,
                        |k: int| pixel_or_black(self@, x0 + k, y0 + dy),
                    ),
                decreases across - dx,
            {
                assert(col * across <= 131070 && row * down <= 196605) by (nonlinear_arith)
                    requires
                        col <= u16::MAX,
                        row <= u16::MAX,
                        across <= 2,
                        down <= 3,
                ;
                let p = match self.get(col * across + dx, row * down + dy) {
                    Some(p) => p,
                    None => [0, 0, 0],
                };
                block.push(p);
                assert(block@ =~= start + Seq::new(
                    (dx + 1) as nat,
                    |k: int| pixel_or_black(self@, x0 + k, y0 + dy),
                ));
                dx = dx + 1;
            }
            assert(block@ =~= cell_pixels(self@, x0, y0, across as int, dy + 1));
            assert((dy + 1) * across == dy * across + across) by (nonlinear_arith);
            dy = dy + 1;
        }
        block
    }
}

impl Element for Pixels {
    /// The cells every pixel needs, whatever the width offered.
    fn measure(&self, width: Option<u16>) -> (r: (u16, u16))
        ensures
            r.0 == cells_for(self@.width, per_cell_spec(self@.blocks).0 as nat),
            r.1 == cells_for(self@.height, per_cell_spec(self@.blocks).1 as nat),
    {
        self.cells()
    }

    fn paint(&self, canvas: &mut Canvas<'_>)
        ensures
            self@.wf() ==> final(canvas).frame() == paint_pixel_rows(
                old(canvas).frame(),
                old(canvas).origin_spec(),
                old(canvas).clip_spec(),
                self@,
                if old(canvas).clip_spec().y - old(canvas).origin_spec().1 > 0 {
                    old(canvas).clip_spec().y - old(canvas).origin_spec().1
                } else {
                    0
                },
                if old(canvas).clip_spec().y + old(canvas).clip_spec().height - old(
                    canvas,
                ).origin_spec().1 < cells_for(self@.height, per_cell_spec(self@.blocks).1 as nat) {
                    old(canvas).clip_spec().y + old(canvas).clip_spec().height - old(
                        canvas,
                    ).origin_spec().1
                } else {
                    cells_for(self@.height, per_cell_spec(self@.blocks).1 as nat)
                },
                cells_for(self@.width, per_cell_spec(self@.blocks).0 as nat),
            ),
    {
        let len = self.data.len();
        match self.width.checked_mul(self.height) {
            Some(n) => {
                if n != len {
                    return;
                }
            },
            None => {
                return;
            },
        }
        let (across, down) = self.blocks.per_cell();
        let (columns, rows) = self.cells();
        let visible = canvas.visible_rows();
        let first: i64 = if visible.0 > 0 { visible.0 } else { 0 };
        let last: i64 = if visible.1 < rows as i64 { visible.1 } else { rows as i64 };
        let ghost v = self@;
        let ghost origin = canvas.origin_spec();
        let ghost clip = canvas.clip_spec();
        let ghost total = paint_pixel_rows(canvas.frame(), origin, clip, v, first as int, last as int, columns as int);
        let mut row = first;
        while row < last
            invariant
                first <= row,
                0 <= first,
                last <= rows,
                v == self@,
                v.wf(),
                (across, down) == per_cell_spec(v.blocks),
                origin == canvas.origin_spec(),
                clip == canvas.clip_spec(),
                canvas.origin_spec() == old(canvas).origin_spec(),
                canvas.clip_spec() == old(canvas).clip_spec(),
                canvas.size_spec() == old(canvas).size_spec(),
                canvas.focused_spec() == old(canvas).focused_spec(),
                canvas.frame().wf(),
                row <= last || row == first,
                paint_pixel_rows(canvas.frame(), origin, clip, v, row as int, last as int, columns as int) == total,
            decreases last - row,
        {
            let mut col: u16 = 0;
            while col < columns
                invariant
                    col <= columns,
                    first <= row < last,
                    0 <= first,
                    last <= rows,
                    v == self@,
                    v.wf(),
                    (across, down) == per_cell_spec(v.blocks),
                    origin == canvas.origin_spec(),
                    clip == canvas.clip_spec(),
                    canvas.origin_spec() == old(canvas).origin_spec(),
                    canvas.clip_spec() == old(canvas).clip_spec(),
                    canvas.size_spec() == old(canvas).size_spec(),
                    canvas.focused_spec() == old(canvas).focused_spec(),
                    canvas.frame().wf(),
                    paint_pixel_rows(
                        paint_cells(canvas.frame(), origin, clip, v, row as int, col as int, columns as int),
                        origin,
                        clip,
                        v,
                        row + 1,
                        last as int,
                        columns as int,
                    ) == total,
                decreases columns - col,
            {
                let block = self.cell_block(col as usize, row as usize, across, down);
                let (fg, bg, bits) = split(block.as_slice());
                let style = Style {
                    fg: Color::Rgb(fg[0], fg[1], fg[2]),
                    bg: Color::Rgb(bg[0], bg[1], bg[2]),
                    ..Style::default()
                };
                let glyph = self.blocks.glyph(bits);
                let mut text = String::new();
                push_char(&mut text, glyph);
                assert(text@ =~= seq![glyph]);
                canvas.text(col as i32, row as i32, text.as_str(), style);
                col = col + 1;
            }
            row = row + 1;
        }
    }
}

} // verus!
