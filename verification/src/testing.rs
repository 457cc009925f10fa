//! Clocks, frame recording, and plain-text frame snapshots for tests.
//!
//! `snapshot` renders a frame as text, and `diff` reports where two
//! snapshots first differ.
use crate::buffer::{row_text, Buffer, BufferView};
use crate::keymap::{later, max_nanos, nanos, saturating_after};
use crate::scan::{char_is_whitespace, whitespace};
use crate::unicode::{push_char, push_str};
use std::time::Duration;
use vstd::prelude::*;

verus! {

/// A duration of `nanos` nanoseconds, as `Duration::from_nanos` makes it.
pub uninterp spec fn duration_from_nanos(nanos: u64) -> Duration;

/// `Duration::from_nanos` from `std`.
#[verifier::external_body]
fn from_nanos(count: u64) -> (d: Duration)
    ensures
        d == duration_from_nanos(count),
        nanos(d) == count,
{
    Duration::from_nanos(count)
}

/// A clock advanced explicitly by tests, with no sleeping or wall-clock reads.
pub struct Clock {
    now: Duration,
}

impl View for Clock {
    type V = Duration;

    closed spec fn view(&self) -> Duration {
        self.now
    }
}

impl Default for Clock {
    /// A clock at zero.
    fn default() -> (c: Self)
        ensures
            c@ == duration_from_nanos(0),
            nanos(c@) == 0,
    {
        Clock { now: from_nanos(0) }
    }
}

impl Clock {
    /// The time the clock shows.
    pub fn now(&self) -> (d: Duration)
        ensures
            d == self@,
    {
        self.now
    }

    /// Move the clock on by `elapsed`, saturating at the largest duration.
    pub fn advance(&mut self, elapsed: Duration)
        ensures
            final(self)@ == later(old(self)@, elapsed),
            nanos(final(self)@) == if nanos(old(self)@) + nanos(elapsed) <= max_nanos() {
                nanos(old(self)@) + nanos(elapsed)
            } else {
                max_nanos()
            },
    {
        self.now = saturating_after(self.now, elapsed);
    }
}

/// Retains only changed frames, including their styles and cursor positions.
pub struct Recorder {
    frames: Vec<(Duration, Buffer)>,
}

impl View for Recorder {
    type V = Seq<(Duration, BufferView)>;

    closed spec fn view(&self) -> Seq<(Duration, BufferView)> {
        self.frames@.map_values(|f: (Duration, Buffer)| (f.0, f.1@))
    }
}

impl Default for Recorder {
    /// A recorder holding no frames.
    fn default() -> (r: Self)
        ensures
            r@ == Seq::<(Duration, BufferView)>::empty(),
            r.wf(),
    {
        let r = Recorder { frames: Vec::new() };
        assert(r@ =~= Seq::<(Duration, BufferView)>::empty());
        r
    }
}

impl Recorder {
    /// Every frame kept is a well-formed buffer.
    pub open spec fn wf(&self) -> bool {
        forall|i: int| 0 <= i < self@.len() ==> (#[trigger] self@[i]).1.wf()
    }

    /// Keep `frame`, seen at `at`, unless it equals the last frame kept.
    pub fn record(&mut self, at: Duration, frame: &Buffer)
        requires
            old(self).wf(),
            frame@.wf(),
        ensures
            final(self).wf(),
            final(self)@ == if old(self)@.len() > 0 && old(self)@.last().1 == frame@ {
                old(self)@
            } else {
                old(self)@.push((at, frame@))
            },
    {
        let n = self.frames.len();
        if n > 0 {
            assert(self@[n - 1] == (self.frames@[n - 1].0, self.frames@[n - 1].1@));
            if self.frames[n - 1].1.same(frame) {
                return;
            }
        }
        let copy = frame.clone();
        let ghost before = self.frames@;
        self.frames.push((at, copy));
        assert(self@ =~= old(self)@.push((at, frame@))) by {
            assert(self.frames@ == before.push((at, copy)));
        }
    }

    /// The frames kept, with the time each was seen, oldest first.
    pub fn frames(&self) -> (f: &[(Duration, Buffer)])
        ensures
            f@.map_values(|p: (Duration, Buffer)| (p.0, p.1@)) == self@,
    {
        self.frames.as_slice()
    }

    /// Forget every frame.
    pub fn clear(&mut self)
        ensures
            final(self)@ == Seq::<(Duration, BufferView)>::empty(),
            final(self).wf(),
    {
        self.frames.clear();
        assert(self@ =~= Seq::<(Duration, BufferView)>::empty());
    }
}

/// The character of a decimal digit.
pub open spec fn digit(d: nat) -> char {
    if d == 0 {
        '0'
    } else if d == 1 {
        '1'
    } else if d == 2 {
        '2'
    } else if d == 3 {
        '3'
    } else if d == 4 {
        '4'
    } else if d == 5 {
        '5'
    } else if d == 6 {
        '6'
    } else if d == 7 {
        '7'
    } else if d == 8 {
        '8'
    } else {
        '9'
    }
}

/// The decimal digits of `n`, most significant first.
pub open spec fn digits(n: nat) -> Seq<char>
    decreases n,
{
    if n < 10 {
        seq![digit(n)]
    } else {
        digits(n / 10).push(digit(n % 10))
    }
}

fn digit_char(d: u128) -> (c: char)
    requires
        d < 10,
    ensures
        c == digit(d as nat),
{
    if d == 0 {
        '0'
    } else if d == 1 {
        '1'
    } else if d == 2 {
        '2'
    } else if d == 3 {
        '3'
    } else if d == 4 {
        '4'
    } else if d == 5 {
        '5'
    } else if d == 6 {
        '6'
    } else if d == 7 {
        '7'
    } else if d == 8 {
        '8'
    } else {
        '9'
    }
}

/// Append the decimal digits of `n`.
pub(crate) fn push_digits(s: &mut String, n: u128)
    ensures
        final(s)@ == old(s)@ + digits(n as nat),
    decreases n,
{
    if n >= 10 {
        push_digits(s, n / 10);
    }
    push_char(s, digit_char(n % 10));
    assert(final(s)@ =~= old(s)@ + digits(n as nat));
}

/// `text` without the whitespace that ends it.
pub open spec fn trim_end(text: Seq<char>) -> Seq<char>
    decreases text.len(),
{
    if text.len() > 0 && whitespace(text.last()) {
        trim_end(text.drop_last())
    } else {
        text
    }
}

proof fn trim_end_prefix(text: Seq<char>, n: int)
    requires
        0 <= n <= text.len(),
        forall|j: int| n <= j < text.len() ==> whitespace(#[trigger] text[j]),
    ensures
        trim_end(text) == trim_end(text.take(n)),
    decreases text.len() - n,
{
    if n < text.len() {
        assert(text.drop_last() =~= text.take(text.len() - 1));
        trim_end_prefix(text.drop_last(), n);
        assert(text.drop_last().take(n) =~= text.take(n));
    } else {
        assert(text.take(n) =~= text);
    }
}

/// The rows that remain once the empty rows at the bottom are dropped.
pub open spec fn kept_rows(rows: Seq<Seq<char>>) -> Seq<Seq<char>>
    decreases rows.len(),
{
    if rows.len() > 0 && rows.last().len() == 0 {
        kept_rows(rows.drop_last())
    } else {
        rows
    }
}

/// Each row followed by a newline.
pub open spec fn joined(rows: Seq<Seq<char>>) -> Seq<char> {
    rows.map_values(|r: Seq<char>| r.push('\n')).flatten()
}

/// The last line of a snapshot: where the frame shows its cursor, if it
/// does.
pub open spec fn cursor_line(cursor: Option<(u16, u16)>) -> Seq<char> {
    match cursor {
        Some((x, y)) => "@cursor "@ + digits(x as nat) + seq![','] + digits(y as nat) + seq!['\n'],
        None => "@cursor none\n"@,
    }
}

/// A frame as plain text: each row once with trailing whitespace removed,
/// blank rows at the bottom dropped, every line ending with a newline, and
/// a last line for the cursor.
pub open spec fn snapshot_spec(frame: BufferView) -> Seq<char> {
    joined(
        kept_rows(Seq::new(frame.height, |y: int| trim_end(row_text(frame.rows[y])))),
    ) + cursor_line(frame.cursor)
}

/// `line` without its trailing whitespace.
fn trimmed(line: &str) -> (t: String)
    ensures
        t@ == trim_end(line@),
{
    broadcast use vstd::string::axiom_spec_iter;

    let mut chars: Vec<char> = Vec::new();
    for c in it: line.chars()
        invariant
            it.seq() == line@,
            chars@ == line@.take(it.index() as int),
    {
        chars.push(c);
        proof {
            assert(line@.take(it.index() + 1) =~= line@.take(it.index() as int).push(c));
        }
    }
    assert(chars@ =~= line@);
    let mut n = chars.len();
    while n > 0 && char_is_whitespace(chars[n - 1])
        invariant
            n <= chars@.len() == line@.len(),
            chars@ == line@,
            forall|j: int| n <= j < line@.len() ==> whitespace(#[trigger] line@[j]),
        decreases n,
    {
        n = n - 1;
    }
    proof {
        trim_end_prefix(line@, n as int);
        let p = line@.take(n as int);
        if p.len() > 0 {
            assert(p.last() == line@[n - 1]);
        }
        assert(trim_end(p) == p);
    }
    let mut t = String::new();
    let mut i: usize = 0;
    while i < n
        invariant
            i <= n <= chars@.len(),
            chars@ == line@,
            t@ == line@.take(i as int),
        decreases n - i,
    {
        push_char(&mut t, chars[i]);
        assert(line@.take(i + 1) =~= line@.take(i as int).push(line@[i as int]));
        i = i + 1;
    }
    t
}

proof fn joined_push(rows: Seq<Seq<char>>, r: Seq<char>)
    ensures
        joined(rows.push(r)) == joined(rows) + r.push('\n'),
{
    let f = |x: Seq<char>| x.push('\n');
    assert(rows.push(r).map_values(f) =~= rows.map_values(f).push(r.push('\n')));
    rows.map_values(f).lemma_flatten_push(r.push('\n'));
}

/// A frame as plain text for comparison with an expected snapshot.
///
/// Each row appears once with trailing blanks removed; blank rows at the
/// bottom are dropped. A wide grapheme is written once, as a terminal shows
/// it. The last line is `@cursor x,y` when the frame shows a cursor and
/// `@cursor none` otherwise. Every line ends with a newline. Styles are not
/// included; inspect `Buffer::cell` to pin them.
pub fn snapshot(frame: &Buffer) -> (text: String)
    requires
        frame@.wf(),
    ensures
        text@ == snapshot_spec(frame@),
{
    let lines = frame.lines();
    let ghost all = Seq::new(frame@.height, |y: int| trim_end(row_text(frame@.rows[y])));
    let mut rows: Vec<String> = Vec::new();
    let mut y: usize = 0;
    while y < lines.len()
        invariant
            y <= lines@.len() == frame@.height,
            all == Seq::new(frame@.height, |y: int| trim_end(row_text(frame@.rows[y]))),
            forall|k: int| 0 <= k < lines@.len() ==> (#[trigger] lines@[k])@ == row_text(frame@.rows[k]),
            rows@.len() == y,
            forall|k: int| 0 <= k < y ==> (#[trigger] rows@[k])@ == all[k],
        decreases lines@.len() - y,
    {
        rows.push(trimmed(lines[y].as_str()));
        y = y + 1;
    }
    let mut n = rows.len();
    assert(all.take(n as int) =~= all);
    while n > 0 && rows[n - 1].as_str().is_empty()
        invariant
            n <= rows@.len() == all.len(),
            forall|k: int| 0 <= k < rows@.len() ==> (#[trigger] rows@[k])@ == all[k],
            kept_rows(all) == kept_rows(all.take(n as int)),
        decreases n,
    {
        proof {
            let p = all.take(n as int);
            assert(p.last() == all[n - 1]);
            assert(p.drop_last() =~= all.take(n - 1));
        }
        n = n - 1;
    }
    proof {
        let p = all.take(n as int);
        if p.len() > 0 {
            assert(p.last() == all[n - 1]);
        }
        assert(kept_rows(p) == p);
    }
    let mut text = String::new();
    let mut i: usize = 0;
    assert(joined(all.take(0)) =~= Seq::<char>::empty());
    while i < n
        invariant
            i <= n <= rows@.len() == all.len(),
            forall|k: int| 0 <= k < rows@.len() ==> (#[trigger] rows@[k])@ == all[k],
            text@ == joined(all.take(i as int)),
            kept_rows(all) == all.take(n as int),
        decreases n - i,
    {
        push_str(&mut text, rows[i].as_str());
        push_char(&mut text, '\n');
        proof {
            joined_push(all.take(i as int), all[i as int]);
            assert(all.take(i + 1) =~= all.take(i as int).push(all[i as int]));
        }
        i = i + 1;
    }
    match frame.cursor() {
        Some((x, y)) => {
            push_str(&mut text, "@cursor ");
            push_digits(&mut text, x as u128);
            push_char(&mut text, ',');
            push_digits(&mut text, y as u128);
            push_char(&mut text, '\n');
        },
        None => {
            push_str(&mut text, "@cursor none\n");
        },
    }
    assert(text@ =~= snapshot_spec(frame@));
    text
}

/// The pieces of `text` between newlines, as `str::split('\n')` yields
/// them: one more than there are newlines.
pub open spec fn split_lines(text: Seq<char>) -> Seq<Seq<char>>
    decreases text.len(),
{
    if text.len() == 0 {
        seq![Seq::empty()]
    } else {
        let before = split_lines(text.drop_last());
        if text.last() == '\n' {
            before.push(Seq::empty())
        } else {
            before.drop_last().push(before.last().push(text.last()))
        }
    }
}

proof fn split_lines_nonempty(text: Seq<char>)
    ensures
        split_lines(text).len() >= 1,
    decreases text.len(),
{
    if text.len() > 0 {
        split_lines_nonempty(text.drop_last());
    }
}

/// The first line at which two lists of lines differ, counting from
/// `from`, or the length of the shorter when one is a prefix of the other.
pub open spec fn first_difference(a: Seq<Seq<char>>, b: Seq<Seq<char>>, from: int) -> int
    decreases a.len() - from,
{
    if from < 0 || from >= a.len() || from >= b.len() {
        if a.len() < b.len() { a.len() as int } else { b.len() as int }
    } else if a[from] != b[from] {
        from
    } else {
        first_difference(a, b, from + 1)
    }
}

/// `digits` right-aligned in four columns.
pub open spec fn padded(digits: Seq<char>) -> Seq<char> {
    if digits.len() >= 4 {
        digits
    } else {
        Seq::new((4 - digits.len()) as nat, |i: int| ' ') + digits
    }
}

/// One line of a report: its mark, its line number, a bar, and the line.
pub open spec fn numbered_line(mark: char, number: nat, line: Seq<char>) -> Seq<char> {
    seq![mark] + padded(digits(number)) + " |"@ + line + seq!['\n']
}

/// The lines from `start` up to `stop`, each numbered.
pub open spec fn numbered(mark: char, lines: Seq<Seq<char>>, start: int, stop: int) -> Seq<char>
    decreases stop - start,
{
    if stop <= start {
        Seq::empty()
    } else {
        numbered(mark, lines, start, stop - 1) + numbered_line(mark, stop as nat, lines[stop - 1])
    }
}

/// The lines from `start` to `end` that exist, with a line saying that
/// the text has ended when the range starts past it.
pub open spec fn shown(mark: char, lines: Seq<Seq<char>>, start: int, end: int) -> Seq<char> {
    let past = if start >= lines.len() && start < end {
        seq![mark] + "     (end)\n"@
    } else {
        Seq::empty()
    };
    let stop = if end < lines.len() { end } else { lines.len() as int };
    past + numbered(mark, lines, start, stop)
}

/// The report on two snapshots that differ: where they first differ, up to
/// two lines of context, then up to three lines of each side.
pub open spec fn report(expected: Seq<char>, actual: Seq<char>) -> Seq<char> {
    let old = split_lines(expected);
    let new = split_lines(actual);
    let first = first_difference(old, new, 0);
    let context = if first >= 2 { first - 2 } else { 0 };
    "frames differ at line "@ + digits((first + 1) as nat) + seq!['\n'] + shown(' ', old, context, first)
        + shown('-', old, first, first + 3) + shown('+', new, first, first + 3)
}

/// The lines of `text`, split at each newline.
fn lines_of(text: &str) -> (lines: Vec<String>)
    ensures
        lines@.map_values(|l: String| l@) == split_lines(text@),
{
    broadcast use vstd::string::axiom_spec_iter;

    let mut done: Vec<String> = Vec::new();
    let mut current = String::new();
    for c in it: text.chars()
        invariant
            it.seq() == text@,
            done@.map_values(|l: String| l@).push(current@) == split_lines(
                text@.take(it.index() as int),
            ),
    {
        let ghost prefix = text@.take(it.index() as int);
        let ghost before = done@.map_values(|l: String| l@);
        let ghost cur_before = current@;
        proof {
            assert(text@.take(it.index() + 1).drop_last() =~= prefix);
            assert(text@.take(it.index() + 1).last() == c);
        }
        if c == '\n' {
            let line = current;
            done.push(line);
            current = String::new();
            assert(done@.map_values(|l: String| l@) =~= before.push(line@));
        } else {
            push_char(&mut current, c);
        }
        proof {
            let x = done@.map_values(|l: String| l@).push(current@);
            let sp = split_lines(text@.take(it.index() + 1));
            if c == '\n' {
                assert(x =~= sp);
            } else {
                let p = before.push(cur_before);
                assert(p == split_lines(prefix));
                assert(current@ == cur_before.push(c));
                assert(p.drop_last() =~= before);
                assert(p.last() == cur_before);
                assert(x =~= sp);
            }
        }
    }
    assert(text@.take(text@.len() as int) =~= text@);
    let ghost before = done@.map_values(|l: String| l@);
    done.push(current);
    assert(done@.map_values(|l: String| l@) =~= before.push(current@));
    done
}

/// Append the lines from `start` to `start + count` that exist, numbered,
/// with `(end)` when the range starts past the last line.
fn show(out: &mut String, mark: char, lines: &Vec<String>, start: usize, count: usize)
    requires
        count > 0,
    ensures
        final(out)@ == old(out)@ + shown(
            mark,
            lines@.map_values(|l: String| l@),
            start as int,
            start + count,
        ),
{
    let ghost all = lines@.map_values(|l: String| l@);
    if start >= lines.len() {
        push_char(out, mark);
        push_str(out, "     (end)\n");
    }
    let ghost head = out@;
    let mut k = start;
    while k < lines.len() && k - start < count
        invariant
            start <= k,
            k <= lines@.len() || k == start,
            k - start <= count,
            all == lines@.map_values(|l: String| l@),
            out@ == head + numbered(mark, all, start as int, k as int),
        decreases lines@.len() - k,
    {
        let ghost before = out@;
        push_char(out, mark);
        let number = k as u128 + 1;
        if number < 1000 {
            push_char(out, ' ');
        }
        if number < 100 {
            push_char(out, ' ');
        }
        if number < 10 {
            push_char(out, ' ');
        }
        push_digits(out, number);
        push_str(out, " |");
        push_str(out, lines[k].as_str());
        push_char(out, '\n');
        proof {
            digits_len(number as nat);
            assert(out@ =~= before + numbered_line(mark, (k + 1) as nat, all[k as int]));
        }
        k = k + 1;
    }
    proof {
        let stop = if start + count < all.len() { start + count } else { all.len() as int };
        if start >= all.len() {
            assert(numbered(mark, all, start as int, k as int) =~= Seq::<char>::empty());
        }
        assert(k == stop || (start >= all.len() && k == start));
    }
    assert(out@ =~= old(out)@ + shown(mark, all, start as int, start + count));
}

proof fn digits_len(n: nat)
    ensures
        n < 10 ==> digits(n).len() == 1,
        10 <= n < 100 ==> digits(n).len() == 2,
        100 <= n < 1000 ==> digits(n).len() == 3,
        1000 <= n ==> digits(n).len() >= 4,
    decreases n,
{
    if n >= 10 {
        digits_len(n / 10);
    }
}

/// Describe where two snapshots first differ, or `None` when they are equal.
///
/// The report shows up to two matching lines before the difference, then up to
/// three expected lines marked `-` and actual lines marked `+`, each with its
/// line number and a `|` that shows where the text starts. A side that has
/// already ended, as when one snapshot lacks its final newline, shows `(end)`.
pub fn diff(expected: &str, actual: &str) -> (r: Option<String>)
    ensures
        match r {
            None => expected@ == actual@,
            Some(text) => expected@ != actual@ && text@ == report(expected@, actual@),
        },
{
    if expected.to_owned() == actual.to_owned() {
        return None;
    }
    let old = lines_of(expected);
    let new = lines_of(actual);
    let ghost a = old@.map_values(|l: String| l@);
    let ghost b = new@.map_values(|l: String| l@);
    let mut first: usize = 0;
    while first < old.len() && first < new.len() && old[first] == new[first]
        invariant
            first <= old@.len(),
            first <= new@.len(),
            a == old@.map_values(|l: String| l@),
            b == new@.map_values(|l: String| l@),
            first_difference(a, b, 0) == first_difference(a, b, first as int),
        decreases old@.len() - first,
    {
        first = first + 1;
    }
    assert(first_difference(a, b, first as int) == first as int);
    let mut out = String::new();
    push_str(&mut out, "frames differ at line ");
    push_digits(&mut out, first as u128 + 1);
    push_char(&mut out, '\n');
    let context = if first >= 2 { first - 2 } else { 0 };
    if context < first {
        show(&mut out, ' ', &old, context, first - context);
    } else {
        proof {
            assert(numbered(' ', a, context as int, first as int) =~= Seq::<char>::empty());
        }
    }
    show(&mut out, '-', &old, first, 3);
    show(&mut out, '+', &new, first, 3);
    assert(out@ =~= report(expected@, actual@));
    Some(out)
}

} // verus!
