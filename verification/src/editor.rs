//! An owned text editor shared by input elements and custom elements.
//!
//! Positions are byte offsets on grapheme boundaries. Undo retains at most
//! 100 edits. The editor keeps its text as characters too, and works on
//! character positions; a byte offset is what a position is told as.
use crate::unicode::{
    chars_of, grapheme_clusters, graphemes, push_char, str_width, text_width,
};
use std::collections::VecDeque;
use vstd::prelude::*;
use vstd::string::StrSliceExecFns;
use vstd::utf8::encode_utf8;

verus! {

/// The bytes before the `k`th character of `text`.
pub open spec fn byte_offset(text: Seq<char>, k: int) -> nat {
    encode_utf8(text.take(k)).len()
}

/// Where the `m`th grapheme of `gs` starts, counted in characters.
pub open spec fn cluster_start(gs: Seq<Seq<char>>, m: int) -> int {
    gs.take(m).flatten().len() as int
}

/// The first grapheme start of `gs`, from the `m`th on, at or after
/// character `end`; the end of the text when there is none.
pub open spec fn start_from(gs: Seq<Seq<char>>, end: int, m: int) -> int
    decreases gs.len() - m,
{
    if m < 0 || m >= gs.len() {
        gs.flatten().len() as int
    } else if cluster_start(gs, m) >= end {
        cluster_start(gs, m)
    } else {
        start_from(gs, end, m + 1)
    }
}

/// An edit: the text `removed` at `start` replaced by `inserted`, with the
/// cursor and anchor before and after it. Positions count characters.
pub struct EditView {
    pub start: nat,
    pub removed: Seq<char>,
    pub inserted: Seq<char>,
    pub before: (nat, Option<nat>),
    pub after: (nat, Option<nat>),
}

/// What an editor holds: its text, the cursor and the selection's other
/// end as character positions, the display column kept for vertical moves,
/// and the edits that undo and redo replay, the latest last.
pub struct EditorView {
    pub text: Seq<char>,
    pub cursor: nat,
    pub anchor: Option<nat>,
    pub column: Option<nat>,
    pub undo: Seq<EditView>,
    pub redo: Seq<EditView>,
}

/// `text` with `len` characters at `start` replaced by `with`.
pub open spec fn splice(text: Seq<char>, start: int, len: int, with: Seq<char>) -> Seq<char> {
    text.take(start) + with + text.skip(start + len)
}

/// Whether a position lies within a text of `len` characters.
pub open spec fn within(p: (nat, Option<nat>), len: nat) -> bool {
    &&& p.0 <= len
    &&& (p.1 matches Some(a) ==> a <= len)
}

/// The text before edit `e`, given the text after it.
pub open spec fn undone(text: Seq<char>, e: EditView) -> Seq<char> {
    splice(text, e.start as int, e.inserted.len() as int, e.removed)
}

/// The text after edit `e`, given the text before it.
pub open spec fn redone(text: Seq<char>, e: EditView) -> Seq<char> {
    splice(text, e.start as int, e.removed.len() as int, e.inserted)
}

/// Whether the edits of `undo`, latest last, can be undone one by one from
/// `text`: each finds its inserted text where it put it, and its positions
/// fit the texts on either side of it.
pub open spec fn undo_chain(text: Seq<char>, undo: Seq<EditView>) -> bool
    decreases undo.len(),
{
    if undo.len() == 0 {
        true
    } else {
        let e = undo.last();
        &&& e.start + e.inserted.len() <= text.len()
        &&& text.subrange(e.start as int, (e.start + e.inserted.len()) as int) == e.inserted
        &&& within(e.after, text.len())
        &&& within(e.before, undone(text, e).len())
        &&& undo_chain(undone(text, e), undo.drop_last())
    }
}

/// Whether the edits of `redo`, latest last, can be redone one by one from
/// `text`.
pub open spec fn redo_chain(text: Seq<char>, redo: Seq<EditView>) -> bool
    decreases redo.len(),
{
    if redo.len() == 0 {
        true
    } else {
        let e = redo.last();
        &&& e.start + e.removed.len() <= text.len()
        &&& text.subrange(e.start as int, (e.start + e.removed.len()) as int) == e.removed
        &&& within(e.before, text.len())
        &&& within(e.after, redone(text, e).len())
        &&& redo_chain(redone(text, e), redo.drop_last())
    }
}

impl EditorView {
    /// The cursor and anchor lie within the text, and the edits remembered
    /// can be undone and redone from it.
    pub open spec fn wf(self) -> bool {
        &&& within((self.cursor, self.anchor), self.text.len())
        &&& undo_chain(self.text, self.undo)
        &&& redo_chain(self.text, self.redo)
    }

    /// The selected characters, from its start to its end.
    pub open spec fn selection(self) -> (nat, nat) {
        let a = match self.anchor {
            Some(a) => a,
            None => self.cursor,
        };
        if a <= self.cursor {
            (a, self.cursor)
        } else {
            (self.cursor, a)
        }
    }
}

/// An editor holding `text`, with the cursor at its end.
pub open spec fn fresh(text: Seq<char>) -> EditorView {
    EditorView {
        text,
        cursor: text.len(),
        anchor: None,
        column: None,
        undo: Seq::empty(),
        redo: Seq::empty(),
    }
}

/// `v` after inserting `text` at the cursor in place of the selection: the
/// cursor goes to the first grapheme boundary at or after the inserted
/// text, since insertion can join adjacent graphemes, and the edit is
/// remembered, the oldest forgotten past a hundred, while redo is cleared.
/// Nothing changes when there is nothing to insert or replace.
pub open spec fn insert_spec(v: EditorView, text: Seq<char>) -> EditorView {
    let (s, e) = v.selection();
    if text.len() == 0 && s == e {
        v
    } else {
        let t = splice(v.text, s as int, e - s, text);
        let cursor = start_from(grapheme_clusters(t), (s + text.len()) as int, 0) as nat;
        let edit = EditView {
            start: s,
            removed: v.text.subrange(s as int, e as int),
            inserted: text,
            before: (v.cursor, v.anchor),
            after: (cursor, None),
        };
        let kept = if v.undo.len() == 100 {
            v.undo.drop_first()
        } else {
            v.undo
        };
        EditorView {
            text: t,
            cursor,
            anchor: None,
            column: None,
            undo: kept.push(edit),
            redo: Seq::empty(),
        }
    }
}

/// `v` with its latest edit undone, and kept for redo.
pub open spec fn undo_spec(v: EditorView) -> EditorView {
    if v.undo.len() == 0 {
        v
    } else {
        let e = v.undo.last();
        EditorView {
            text: undone(v.text, e),
            cursor: e.before.0,
            anchor: e.before.1,
            column: None,
            undo: v.undo.drop_last(),
            redo: v.redo.push(e),
        }
    }
}

/// `v` with its latest undone edit made again.
pub open spec fn redo_spec(v: EditorView) -> EditorView {
    if v.redo.len() == 0 {
        v
    } else {
        let e = v.redo.last();
        EditorView {
            text: redone(v.text, e),
            cursor: e.after.0,
            anchor: e.after.1,
            column: None,
            undo: v.undo.push(e),
            redo: v.redo.drop_last(),
        }
    }
}

/// `v` with the cursor moved to `target`: extending keeps or starts the
/// selection at the old cursor, moving otherwise clears it. The preferred
/// column is forgotten.
pub open spec fn move_spec(v: EditorView, target: nat, extend: bool) -> EditorView {
    EditorView {
        cursor: target,
        anchor: if extend {
            Some(
                match v.anchor {
                    Some(a) => a,
                    None => v.cursor,
                },
            )
        } else {
            None
        },
        column: None,
        ..v
    }
}

/// Where the last grapheme of `gs` starts, or zero when there is none.
pub open spec fn last_start(gs: Seq<Seq<char>>) -> nat {
    if gs.len() == 0 {
        0
    } else {
        cluster_start(gs, gs.len() - 1) as nat
    }
}

/// `v` after moving left: to the start of a selection when not extending
/// one, else one grapheme back, counting graphemes in the text before the
/// cursor.
pub open spec fn left_spec(v: EditorView, extend: bool) -> EditorView {
    let (s, e) = v.selection();
    if !extend && s != e {
        move_spec(v, s, false)
    } else {
        move_spec(v, last_start(grapheme_clusters(v.text.take(v.cursor as int))), extend)
    }
}

/// `v` after moving right: to the end of a selection when not extending
/// one, else over the first grapheme of the text after the cursor.
pub open spec fn right_spec(v: EditorView, extend: bool) -> EditorView {
    let (s, e) = v.selection();
    if !extend && s != e {
        move_spec(v, e, false)
    } else {
        let gs = grapheme_clusters(v.text.skip(v.cursor as int));
        let n = if gs.len() == 0 {
            0
        } else {
            gs[0].len()
        };
        move_spec(v, v.cursor + n, extend)
    }
}

/// `v` after erasing: the selection if there is one, else the grapheme
/// before the cursor, or after it when not `backward`. The edit is
/// remembered with the selection that was there before, and nothing
/// changes but the column when there is nothing to erase.
pub open spec fn erase_spec(v: EditorView, backward: bool) -> EditorView {
    let (s, e) = v.selection();
    let m = if s == e {
        if backward {
            left_spec(v, true)
        } else {
            right_spec(v, true)
        }
    } else {
        v
    };
    let (s2, e2) = m.selection();
    if s2 == e2 {
        EditorView { cursor: v.cursor, anchor: v.anchor, ..m }
    } else {
        let w = insert_spec(m, Seq::empty());
        let top = w.undo.last();
        EditorView {
            undo: w.undo.update(
                w.undo.len() - 1,
                EditView { before: (v.cursor, v.anchor), ..top },
            ),
            ..w
        }
    }
}

/// The grapheme start of `gs` last at or before byte `offset` of `text`,
/// looking from the `m`th on, as `take_while` finds it.
pub open spec fn seek_in(gs: Seq<Seq<char>>, text: Seq<char>, offset: nat, m: int) -> nat
    decreases gs.len() - m,
{
    if m < 0 || m >= gs.len() || byte_offset(text, cluster_start(gs, m)) > offset {
        if m <= 0 {
            0
        } else {
            cluster_start(gs, m - 1) as nat
        }
    } else {
        seek_in(gs, text, offset, m + 1)
    }
}

/// `v` after moving to byte `offset`, snapped back to a grapheme start, or
/// to the end of the text when it is at or past it.
pub open spec fn seek_spec(v: EditorView, offset: nat, extend: bool) -> EditorView {
    let target = if offset >= byte_offset(v.text, v.text.len() as int) {
        v.text.len()
    } else {
        seek_in(grapheme_clusters(v.text), v.text, offset, 0)
    };
    move_spec(v, target, extend)
}

/// The position just after the last newline before position `k`, or zero.
pub open spec fn line_start(text: Seq<char>, k: int) -> nat
    decreases k,
{
    if k <= 0 {
        0
    } else if text[k - 1] == '\n' {
        k as nat
    } else {
        line_start(text, k - 1)
    }
}

/// The position of the first newline at or after `k`, or the end.
pub open spec fn line_end(text: Seq<char>, k: int) -> nat
    decreases text.len() - k,
{
    if k < 0 || k >= text.len() {
        text.len()
    } else if text[k] == '\n' {
        k as nat
    } else {
        line_end(text, k + 1)
    }
}

/// `v` after moving to the start of the cursor's logical line.
pub open spec fn line_home_spec(v: EditorView, extend: bool) -> EditorView {
    move_spec(v, line_start(v.text, v.cursor as int), extend)
}

/// `v` after moving to the end of the cursor's logical line.
pub open spec fn line_end_spec(v: EditorView, extend: bool) -> EditorView {
    seek_spec(v, byte_offset(v.text, line_end(v.text, v.cursor as int) as int), extend)
}

/// Where each logical line of `text` starts: at zero and after each newline.
pub open spec fn line_starts(text: Seq<char>) -> Seq<nat>
    decreases text.len(),
{
    if text.len() == 0 {
        seq![0]
    } else if text.last() == '\n' {
        line_starts(text.drop_last()).push(text.len())
    } else {
        line_starts(text.drop_last())
    }
}

/// How many of `starts`, from the `k`th on, are at or before `c`, plus `k`,
/// as `partition_point` counts them.
pub open spec fn starts_upto(starts: Seq<nat>, c: nat, k: int) -> int
    decreases starts.len() - k,
{
    if k < 0 || k >= starts.len() || starts[k] > c {
        k
    } else {
        starts_upto(starts, c, k + 1)
    }
}

/// The characters of the graphemes of `gs`, from the `m`th on, that fit
/// `column` cells once `width` are used, plus those of the graphemes before
/// the `m`th.
pub open spec fn fitting(gs: Seq<Seq<char>>, column: nat, m: int, width: nat) -> int
    decreases gs.len() - m,
{
    if m < 0 || m >= gs.len() || width + str_width(gs[m]) > column {
        cluster_start(gs, m)
    } else {
        fitting(gs, column, m + 1, width + str_width(gs[m]))
    }
}

/// `row` moved by `delta`, saturating at zero and at `usize::MAX`.
pub open spec fn moved_row(row: int, delta: int) -> int {
    if row + delta < 0 {
        0
    } else if row + delta > usize::MAX {
        usize::MAX as int
    } else {
        row + delta
    }
}

/// `v` after moving `delta` logical lines, keeping the display column: the
/// one kept from the last vertical move, else the cursor's. On the new line
/// the cursor goes past the graphemes that fit within that column.
pub open spec fn vertical_spec(v: EditorView, delta: int, extend: bool) -> EditorView {
    let starts = line_starts(v.text);
    let row = starts_upto(starts, v.cursor, 0) - 1;
    let column = match v.column {
        Some(c) => c,
        None => str_width(v.text.subrange(starts[row] as int, v.cursor as int)),
    };
    let next = if moved_row(row, delta) < starts.len() - 1 {
        moved_row(row, delta)
    } else {
        starts.len() - 1
    };
    let from = starts[next];
    let line = v.text.subrange(from as int, line_end(v.text, from as int) as int);
    let offset = from + fitting(grapheme_clusters(line), column, 0, 0);
    EditorView {
        column: Some(column),
        ..seek_spec(v, byte_offset(v.text, offset), extend)
    }
}

/// `encode_utf8` keeps concatenation.
pub proof fn encode_concat(a: Seq<char>, b: Seq<char>)
    ensures
        encode_utf8(a + b) == encode_utf8(a) + encode_utf8(b),
    decreases a.len(),
{
    if a.len() == 0 {
        assert(a + b =~= b);
        assert(encode_utf8(a) =~= Seq::<u8>::empty());
        assert(encode_utf8(a) + encode_utf8(b) =~= encode_utf8(b));
    } else {
        encode_concat(a.drop_first(), b);
        assert((a + b).drop_first() =~= a.drop_first() + b);
        assert((a + b)[0] == a[0]);
        assert(encode_utf8(a + b) =~= encode_utf8(a) + encode_utf8(b));
    }
}

/// The bytes of one more character.
proof fn byte_offset_step(text: Seq<char>, k: int)
    requires
        0 <= k < text.len(),
    ensures
        byte_offset(text, k + 1) == byte_offset(text, k) + encode_utf8(seq![text[k]]).len(),
{
    assert(text.take(k + 1) =~= text.take(k) + seq![text[k]]);
    encode_concat(text.take(k), seq![text[k]]);
}

/// A prefix takes no more bytes than the whole text.
proof fn byte_offset_bound(text: Seq<char>, k: int)
    requires
        0 <= k <= text.len(),
    ensures
        byte_offset(text, k) <= encode_utf8(text).len(),
        byte_offset(text, text.len() as int) == encode_utf8(text).len(),
{
    assert(text =~= text.take(k) + text.skip(k));
    encode_concat(text.take(k), text.skip(k));
    assert(text.take(text.len() as int) =~= text);
}

/// The bytes UTF-8 gives a character.
fn utf8_len(c: char) -> (n: usize)
    ensures
        n == encode_utf8(seq![c]).len(),
        1 <= n <= 4,
{
    proof {
        vstd::utf8::char_is_scalar(c);
        assert(seq![c].drop_first() =~= Seq::<char>::empty());
        assert(encode_utf8(seq![c].drop_first()) =~= Seq::<u8>::empty());
    }
    let u = c as u32;
    if u < 0x80 {
        1
    } else if u < 0x800 {
        2
    } else if u < 0x10000 {
        3
    } else {
        4
    }
}

/// The bytes before character `k` of `chars`, whose whole encoding takes
/// `total` bytes.
fn offset_of(chars: &[char], k: usize, total: usize) -> (n: usize)
    requires
        k <= chars@.len(),
        total == encode_utf8(chars@).len(),
    ensures
        n == byte_offset(chars@, k as int),
{
    let mut n: usize = 0;
    let mut i: usize = 0;
    proof {
        assert(chars@.take(0) =~= Seq::<char>::empty());
        assert(encode_utf8(chars@.take(0)) =~= Seq::<u8>::empty());
    }
    while i < k
        invariant
            i <= k <= chars@.len(),
            total == encode_utf8(chars@).len(),
            n == byte_offset(chars@, i as int),
        decreases k - i,
    {
        proof {
            byte_offset_step(chars@, i as int);
            byte_offset_bound(chars@, i + 1);
        }
        n = n + utf8_len(chars[i]);
        i = i + 1;
    }
    n
}

/// A string holding `chars`.
fn string_of(chars: &[char]) -> (s: String)
    ensures
        s@ == chars@,
{
    let mut s = String::new();
    let mut i: usize = 0;
    while i < chars.len()
        invariant
            i <= chars@.len(),
            s@ == chars@.take(i as int),
        decreases chars@.len() - i,
    {
        push_char(&mut s, chars[i]);
        assert(chars@.take(i + 1) =~= chars@.take(i as int).push(chars@[i as int]));
        i = i + 1;
    }
    assert(chars@.take(chars@.len() as int) =~= chars@);
    s
}

/// The characters of `chars` from `from` up to `to`.
fn slice_of(chars: &[char], from: usize, to: usize) -> (r: Vec<char>)
    requires
        from <= to <= chars@.len(),
    ensures
        r@ == chars@.subrange(from as int, to as int),
{
    let mut r: Vec<char> = Vec::new();
    let mut i = from;
    while i < to
        invariant
            from <= i <= to <= chars@.len(),
            r@ == chars@.subrange(from as int, i as int),
        decreases to - i,
    {
        r.push(chars[i]);
        assert(chars@.subrange(from as int, i + 1) =~= chars@.subrange(from as int, i as int).push(
            chars@[i as int],
        ));
        i = i + 1;
    }
    r
}

/// `chars` with `len` characters at `start` replaced by `with`.
fn spliced(chars: &[char], start: usize, len: usize, with: &[char]) -> (r: Vec<char>)
    requires
        start + len <= chars@.len(),
    ensures
        r@ == splice(chars@, start as int, len as int, with@),
{
    let n = chars.len();
    let mut r = slice_of(chars, 0, start);
    let mut i: usize = 0;
    while i < with.len()
        invariant
            i <= with@.len(),
            r@ == chars@.take(start as int) + with@.take(i as int),
        decreases with@.len() - i,
    {
        r.push(with[i]);
        assert(with@.take(i + 1) =~= with@.take(i as int).push(with@[i as int]));
        i = i + 1;
    }
    let mut j = start + len;
    let ghost head = r@;
    assert(with@.take(with@.len() as int) =~= with@);
    while j < chars.len()
        invariant
            start + len <= j <= chars@.len(),
            head == chars@.take(start as int) + with@,
            r@ == head + chars@.subrange(start + len, j as int),
        decreases chars@.len() - j,
    {
        r.push(chars[j]);
        assert(chars@.subrange(start + len, j + 1) =~= chars@.subrange(start + len, j as int).push(
            chars@[j as int],
        ));
        j = j + 1;
    }
    assert(chars@.subrange(start + len, chars@.len() as int) =~= chars@.skip(start + len));
    r
}

proof fn cluster_start_step(gs: Seq<Seq<char>>, m: int)
    requires
        0 <= m < gs.len(),
    ensures
        cluster_start(gs, m + 1) == cluster_start(gs, m) + gs[m].len(),
{
    assert(gs.take(m + 1) =~= gs.take(m).push(gs[m]));
    gs.take(m).lemma_flatten_push(gs[m]);
}

/// The grapheme clusters of `chars`, with the number of characters in each.
fn clusters(chars: &[char]) -> (r: (Vec<String>, Vec<usize>))
    ensures
        r.0@.map_values(|g: String| g@) == grapheme_clusters(chars@),
        r.0@.map_values(|g: String| g@).flatten() == chars@,
        r.1@.len() == r.0@.len(),
        forall|i: int| 0 <= i < r.1@.len() ==> #[trigger] r.1@[i] == r.0@[i]@.len() && r.1@[i] > 0,
{
    let s = string_of(chars);
    let gs = graphemes(s.as_str());
    let mut lens: Vec<usize> = Vec::new();
    let mut i: usize = 0;
    while i < gs.len()
        invariant
            i <= gs@.len(),
            lens@.len() == i,
            forall|j: int| 0 <= j < gs@.len() ==> (#[trigger] gs@[j])@.len() > 0,
            forall|j: int| 0 <= j < i ==> #[trigger] lens@[j] == gs@[j]@.len(),
        decreases gs@.len() - i,
    {
        lens.push(gs[i].as_str().unicode_len());
        i = i + 1;
    }
    (gs, lens)
}

/// Where the first grapheme at or after character `end` of `chars`
/// starts, or the end of the text.
fn boundary_from(chars: &[char], end: usize) -> (n: usize)
    ensures
        n == start_from(grapheme_clusters(chars@), end as int, 0),
        n <= chars@.len(),
{
    let (gs, lens) = clusters(chars);
    let n = chars.len();
    let ghost all = gs@.map_values(|g: String| g@);
    let mut m: usize = 0;
    let mut at: usize = 0;
    proof {
        assert(all.take(0) =~= Seq::<Seq<char>>::empty());
        assert(all.take(0).flatten() =~= Seq::<char>::empty());
    }
    while m < lens.len()
        invariant
            m <= lens@.len() == all.len(),
            all == gs@.map_values(|g: String| g@),
            all == grapheme_clusters(chars@),
            all.flatten() == chars@,
            n == chars@.len(),
            forall|i: int| 0 <= i < lens@.len() ==> #[trigger] lens@[i] == all[i].len(),
            at == cluster_start(all, m as int),
            at <= chars@.len(),
            start_from(all, end as int, 0) == start_from(all, end as int, m as int),
        decreases lens@.len() - m,
    {
        if at >= end {
            return at;
        }
        proof {
            cluster_start_step(all, m as int);
            assert(all.take(m + 1).flatten().len() <= all.flatten().len()) by {
                assert(all =~= all.take(m + 1) + all.skip(m + 1));
                vstd::seq_lib::lemma_flatten_concat(all.take(m + 1), all.skip(m + 1));
            }
        }
        at = at + lens[m];
        m = m + 1;
    }
    chars.len()
}

/// Where each grapheme starts lies within the text, and the last one ends it.
proof fn cluster_start_bound(gs: Seq<Seq<char>>, m: int)
    requires
        0 <= m <= gs.len(),
    ensures
        cluster_start(gs, m) <= gs.flatten().len(),
        cluster_start(gs, gs.len() as int) == gs.flatten().len(),
{
    assert(gs =~= gs.take(m) + gs.skip(m));
    vstd::seq_lib::lemma_flatten_concat(gs.take(m), gs.skip(m));
    assert(gs.take(gs.len() as int) =~= gs);
}

/// The last grapheme starts where the text ends less its length.
proof fn last_start_value(gs: Seq<Seq<char>>)
    requires
        gs.len() > 0,
    ensures
        last_start(gs) + gs.last().len() == gs.flatten().len(),
{
    cluster_start_step(gs, gs.len() - 1);
    cluster_start_bound(gs, gs.len() as int);
}

/// The bytes before each character of `chars`, and before its end.
fn byte_offsets(chars: &[char], total: usize) -> (r: Vec<usize>)
    requires
        total == encode_utf8(chars@).len(),
    ensures
        r@.len() == chars@.len() + 1,
        forall|k: int| 0 <= k <= chars@.len() ==> #[trigger] r@[k] == byte_offset(chars@, k),
{
    let mut r: Vec<usize> = Vec::new();
    let mut n: usize = 0;
    let mut i: usize = 0;
    proof {
        assert(chars@.take(0) =~= Seq::<char>::empty());
        assert(encode_utf8(chars@.take(0)) =~= Seq::<u8>::empty());
    }
    r.push(0);
    while i < chars.len()
        invariant
            i <= chars@.len(),
            total == encode_utf8(chars@).len(),
            n == byte_offset(chars@, i as int),
            r@.len() == i + 1,
            forall|k: int| 0 <= k <= i ==> #[trigger] r@[k] == byte_offset(chars@, k),
        decreases chars@.len() - i,
    {
        proof {
            byte_offset_step(chars@, i as int);
            byte_offset_bound(chars@, i + 1);
        }
        n = n + utf8_len(chars[i]);
        r.push(n);
        i = i + 1;
    }
    r
}

/// The grapheme start of `chars` last at or before byte `offset`.
fn seek_index(chars: &[char], offset: usize, total: usize) -> (n: usize)
    requires
        total == encode_utf8(chars@).len(),
    ensures
        n == seek_in(grapheme_clusters(chars@), chars@, offset as nat, 0),
        n <= chars@.len(),
{
    let (gs, lens) = clusters(chars);
    let offsets = byte_offsets(chars, total);
    let ghost all = gs@.map_values(|g: String| g@);
    let len = chars.len();
    let mut m: usize = 0;
    let mut at: usize = 0;
    let mut previous: usize = 0;
    proof {
        assert(all.take(0) =~= Seq::<Seq<char>>::empty());
        assert(all.take(0).flatten() =~= Seq::<char>::empty());
    }
    while m < lens.len() && offsets[at] <= offset
        invariant
            m <= lens@.len() == all.len(),
            all == grapheme_clusters(chars@),
            all.flatten() == chars@,
            len == chars@.len(),
            offsets@.len() == chars@.len() + 1,
            forall|k: int| 0 <= k <= chars@.len() ==> #[trigger] offsets@[k] == byte_offset(chars@, k),
            forall|i: int| 0 <= i < lens@.len() ==> #[trigger] lens@[i] == all[i].len(),
            at == cluster_start(all, m as int),
            at <= len,
            m > 0 ==> previous == cluster_start(all, m - 1),
            previous <= len,
            seek_in(all, chars@, offset as nat, 0) == seek_in(all, chars@, offset as nat, m as int),
        decreases lens@.len() - m,
    {
        proof {
            cluster_start_step(all, m as int);
            cluster_start_bound(all, m + 1);
        }
        previous = at;
        at = at + lens[m];
        m = m + 1;
    }
    if m == 0 {
        0
    } else {
        previous
    }
}

proof fn line_starts_facts(text: Seq<char>)
    ensures
        line_starts(text).len() >= 1,
        line_starts(text)[0] == 0,
        forall|j: int| 0 <= j < line_starts(text).len() ==> #[trigger] line_starts(text)[j] <= text.len(),
    decreases text.len(),
{
    if text.len() > 0 {
        line_starts_facts(text.drop_last());
    }
}

struct Edit {
    start: usize,
    removed: Vec<char>,
    inserted: Vec<char>,
    before: (usize, Option<usize>),
    after: (usize, Option<usize>),
}

/// A position as characters counted in the view.
pub open spec fn position(p: (usize, Option<usize>)) -> (nat, Option<nat>) {
    (
        p.0 as nat,
        match p.1 {
            Some(a) => Some(a as nat),
            None => None,
        },
    )
}

impl View for Edit {
    type V = EditView;

    closed spec fn view(&self) -> EditView {
        EditView {
            start: self.start as nat,
            removed: self.removed@,
            inserted: self.inserted@,
            before: position(self.before),
            after: position(self.after),
        }
    }
}

/// An editor: text, a cursor and selection in it, and undoable edits.
pub struct Editor {
    text: String,
    chars: Vec<char>,
    cursor: usize,
    anchor: Option<usize>,
    undo: VecDeque<Edit>,
    redo: Vec<Edit>,
    column: Option<usize>,
    top: usize,
    left: usize,
}

/// The view of each edit.
pub open spec fn edits_view(edits: Seq<Edit>) -> Seq<EditView> {
    edits.map_values(|e: Edit| e@)
}

impl View for Editor {
    type V = EditorView;

    closed spec fn view(&self) -> EditorView {
        EditorView {
            text: self.chars@,
            cursor: self.cursor as nat,
            anchor: position((self.cursor, self.anchor)).1,
            column: match self.column {
                Some(c) => Some(c as nat),
                None => None,
            },
            undo: edits_view(self.undo@),
            redo: edits_view(self.redo@),
        }
    }
}

impl Default for Editor {
    /// An empty editor.
    fn default() -> (e: Self)
        ensures
            e@ == fresh(Seq::empty()),
            e.wf(),
    {
        let e = Editor {
            text: String::new(),
            chars: Vec::new(),
            cursor: 0,
            anchor: None,
            undo: VecDeque::new(),
            redo: Vec::new(),
            column: None,
            top: 0,
            left: 0,
        };
        assert(e@.text =~= Seq::<char>::empty());
        assert(e@.undo =~= Seq::<EditView>::empty());
        assert(e@.redo =~= Seq::<EditView>::empty());
        e
    }
}

impl Editor {
    /// The text and its characters agree, and the view is well formed.
    pub closed spec fn wf(&self) -> bool {
        &&& self.text@ == self.chars@
        &&& self@.wf()
    }

    /// An editor holding `text`, with the cursor at its end.
    pub fn new(text: &str) -> (e: Self)
        ensures
            e@ == fresh(text@),
            e.wf(),
    {
        let chars = chars_of(text);
        let e = Editor {
            text: text.to_owned(),
            cursor: chars.len(),
            chars,
            anchor: None,
            undo: VecDeque::new(),
            redo: Vec::new(),
            column: None,
            top: 0,
            left: 0,
        };
        assert(e@.undo =~= Seq::<EditView>::empty());
        assert(e@.redo =~= Seq::<EditView>::empty());
        e
    }

    /// The first row and column a display of the text starts at.
    pub closed spec fn scroll(&self) -> (nat, nat) {
        (self.top as nat, self.left as nat)
    }

    /// The first row and column a display of the text starts at, as last set.
    pub fn view_offset(&self) -> (v: (usize, usize))
        ensures
            v.0 == self.scroll().0,
            v.1 == self.scroll().1,
    {
        (self.top, self.left)
    }

    /// Remember where a display of the text starts; the text, cursor and
    /// edits stay as they are.
    pub fn set_view(&mut self, top: usize, left: usize)
        ensures
            final(self)@ == old(self)@,
            final(self).wf() == old(self).wf(),
            final(self).scroll() == (top as nat, left as nat),
    {
        self.top = top;
        self.left = left;
    }

    /// The cursor, in characters.
    pub(crate) fn at(&self) -> (c: usize)
        ensures
            c == self@.cursor,
    {
        self.cursor
    }

    /// The selection, in characters, first to last.
    pub(crate) fn selected(&self) -> (r: (usize, usize))
        requires
            self.wf(),
        ensures
            r.0 == self@.selection().0,
            r.1 == self@.selection().1,
            r.0 <= r.1 <= self@.text.len(),
    {
        self.range()
    }

    /// The text.
    pub fn text(&self) -> (t: &str)
        requires
            self.wf(),
        ensures
            t@ == self@.text,
    {
        self.text.as_str()
    }

    /// The cursor, as a byte offset into the text.
    pub fn cursor(&self) -> (c: usize)
        requires
            self.wf(),
        ensures
            c == byte_offset(self@.text, self@.cursor as int),
    {
        let total = self.text.as_str().as_bytes().len();
        offset_of(self.chars.as_slice(), self.cursor, total)
    }

    /// The selected bytes; empty at the cursor when nothing is selected.
    pub fn selection(&self) -> (r: std::ops::Range<usize>)
        requires
            self.wf(),
        ensures
            r.start == byte_offset(self@.text, self@.selection().0 as int),
            r.end == byte_offset(self@.text, self@.selection().1 as int),
    {
        let (s, e) = self.range();
        let total = self.text.as_str().as_bytes().len();
        let start = offset_of(self.chars.as_slice(), s, total);
        let end = offset_of(self.chars.as_slice(), e, total);
        start..end
    }

    /// The selection, in characters.
    fn range(&self) -> (r: (usize, usize))
        requires
            self.wf(),
        ensures
            r.0 == self@.selection().0,
            r.1 == self@.selection().1,
            r.0 <= r.1 <= self@.text.len(),
    {
        let a = match self.anchor {
            Some(a) => a,
            None => self.cursor,
        };
        if a <= self.cursor {
            (a, self.cursor)
        } else {
            (self.cursor, a)
        }
    }

    /// Replace the text, forgetting the selection and every edit.
    pub fn set(&mut self, text: &str)
        ensures
            final(self)@ == fresh(text@),
            final(self).wf(),
    {
        *self = Editor::new(text);
    }

    /// Insert at the cursor, replacing the selection as one undoable operation.
    pub fn insert(&mut self, text: &str)
        requires
            old(self).wf(),
        ensures
            final(self)@ == insert_spec(old(self)@, text@),
            final(self).wf(),
    {
        let ghost v = self@;
        let ins = chars_of(text);
        let (s, e) = self.range();
        if ins.len() == 0 && s == e {
            return;
        }
        let removed = slice_of(self.chars.as_slice(), s, e);
        let chars = spliced(self.chars.as_slice(), s, e - s, ins.as_slice());
        let ghost t = chars@;
        let tl = chars.len();
        assert(s + ins@.len() <= tl);
        let end = s + ins.len();
        let cursor = boundary_from(chars.as_slice(), end);
        let before = (self.cursor, self.anchor);
        self.text = string_of(chars.as_slice());
        self.chars = chars;
        self.cursor = cursor;
        self.anchor = None;
        self.column = None;
        if self.undo.len() == 100 {
            let ghost u = self.undo@;
            self.undo.pop_front();
            proof {
                undo_chain_drop_first(v.text, edits_view(u));
                assert(edits_view(self.undo@) =~= edits_view(u).drop_first());
            }
        }
        let ghost kept = self.undo@;
        let edit = Edit { start: s, removed, inserted: ins, before, after: (cursor, None) };
        self.undo.push_back(edit);
        self.redo = Vec::new();
        proof {
            assert(edits_view(self.undo@) =~= edits_view(kept).push(edit@));
            assert(edits_view(self.redo@) =~= Seq::<EditView>::empty());
            let ev = edit@;
            assert(t.subrange(s as int, s + ins@.len()) =~= ins@);
            assert(undone(t, ev) =~= v.text);
            assert(edits_view(self.undo@).drop_last() =~= edits_view(kept));
        }
    }

    /// Move the cursor to `target`, extending the selection or clearing it.
    fn move_to(&mut self, target: usize, extend: bool)
        requires
            old(self).wf(),
            target <= old(self)@.text.len(),
        ensures
            final(self)@ == move_spec(old(self)@, target as nat, extend),
            final(self).wf(),
    {
        self.column = None;
        if extend {
            if self.anchor.is_none() {
                self.anchor = Some(self.cursor);
            }
        } else {
            self.anchor = None;
        }
        self.cursor = target;
    }

    /// Move one grapheme left, or to the start of the selection.
    pub fn left(&mut self, extend: bool)
        requires
            old(self).wf(),
        ensures
            final(self)@ == left_spec(old(self)@, extend),
            final(self).wf(),
    {
        let (s, e) = self.range();
        if !extend && s != e {
            self.move_to(s, false);
            return;
        }
        let prefix = slice_of(self.chars.as_slice(), 0, self.cursor);
        assert(prefix@ =~= self@.text.take(self@.cursor as int));
        let (gs, lens) = clusters(prefix.as_slice());
        let target = if lens.len() == 0 {
            0
        } else {
            let ghost all = gs@.map_values(|g: String| g@);
            proof {
                last_start_value(all);
                assert(all.last() == gs@[gs@.len() - 1]@);
            }
            self.cursor - lens[lens.len() - 1]
        };
        self.move_to(target, extend);
    }

    /// Move one grapheme right, or to the end of the selection.
    pub fn right(&mut self, extend: bool)
        requires
            old(self).wf(),
        ensures
            final(self)@ == right_spec(old(self)@, extend),
            final(self).wf(),
    {
        let (s, e) = self.range();
        if !extend && s != e {
            self.move_to(e, false);
            return;
        }
        let suffix = slice_of(self.chars.as_slice(), self.cursor, self.chars.len());
        assert(suffix@ =~= self@.text.skip(self@.cursor as int));
        let (gs, lens) = clusters(suffix.as_slice());
        let n = if lens.len() == 0 {
            0
        } else {
            let ghost all = gs@.map_values(|g: String| g@);
            proof {
                cluster_start_step(all, 0);
                cluster_start_bound(all, 1);
                assert(all.take(0) =~= Seq::<Seq<char>>::empty());
                assert(all.take(0).flatten() =~= Seq::<char>::empty());
            }
            lens[0]
        };
        self.move_to(self.cursor + n, extend);
    }

    /// Move to the start of the text.
    pub fn home(&mut self, extend: bool)
        requires
            old(self).wf(),
        ensures
            final(self)@ == move_spec(old(self)@, 0, extend),
            final(self).wf(),
    {
        self.move_to(0, extend);
    }

    /// Move to the end of the text.
    pub fn end(&mut self, extend: bool)
        requires
            old(self).wf(),
        ensures
            final(self)@ == move_spec(old(self)@, old(self)@.text.len(), extend),
            final(self).wf(),
    {
        self.move_to(self.chars.len(), extend);
    }

    /// Select the whole text, with the cursor at its end.
    pub fn select_all(&mut self)
        requires
            old(self).wf(),
        ensures
            final(self)@ == (EditorView {
                cursor: old(self)@.text.len(),
                anchor: Some(0),
                column: None,
                ..old(self)@
            }),
            final(self).wf(),
    {
        self.column = None;
        self.anchor = Some(0);
        self.cursor = self.chars.len();
    }

    /// Erase the selection, or the grapheme before the cursor.
    pub fn backspace(&mut self)
        requires
            old(self).wf(),
        ensures
            final(self)@ == erase_spec(old(self)@, true),
            final(self).wf(),
    {
        self.erase(true);
    }

    /// Erase the selection, or the grapheme after the cursor.
    pub fn delete(&mut self)
        requires
            old(self).wf(),
        ensures
            final(self)@ == erase_spec(old(self)@, false),
            final(self).wf(),
    {
        self.erase(false);
    }

    /// Keep the user's selection separate from the range selected for deletion.
    fn erase(&mut self, backward: bool)
        requires
            old(self).wf(),
        ensures
            final(self)@ == erase_spec(old(self)@, backward),
            final(self).wf(),
    {
        let ghost v = self@;
        let before = (self.cursor, self.anchor);
        let (s, e) = self.range();
        if s == e {
            if backward {
                self.left(true);
            } else {
                self.right(true);
            }
        }
        let (s2, e2) = self.range();
        if s2 == e2 {
            self.cursor = before.0;
            self.anchor = before.1;
            return;
        }
        let ghost m = self@;
        let nothing = "";
        proof {
            reveal_strlit("");
            assert(nothing@ =~= Seq::<char>::empty());
        }
        self.insert(nothing);
        let ghost w = self@;
        match self.undo.pop_back() {
            Some(top) => {
                let ghost rest = self.undo@;
                let edit = Edit {
                    start: top.start,
                    removed: top.removed,
                    inserted: top.inserted,
                    before,
                    after: top.after,
                };
                self.undo.push_back(edit);
                proof {
                    assert(edits_view(rest) =~= w.undo.drop_last());
                    assert(edits_view(self.undo@) =~= w.undo.update(
                        w.undo.len() - 1,
                        EditView { before: (v.cursor, v.anchor), ..w.undo.last() },
                    ));
                    assert(edits_view(self.undo@).drop_last() =~= w.undo.drop_last());
                }
            },
            None => {},
        }
    }

    /// Move to a byte offset, snapping backward to a grapheme boundary.
    pub fn seek(&mut self, offset: usize, extend: bool)
        requires
            old(self).wf(),
        ensures
            final(self)@ == seek_spec(old(self)@, offset as nat, extend),
            final(self).wf(),
    {
        let total = self.text.as_str().as_bytes().len();
        proof {
            byte_offset_bound(self@.text, 0);
        }
        let target = if offset >= total {
            self.chars.len()
        } else {
            seek_index(self.chars.as_slice(), offset, total)
        };
        self.move_to(target, extend);
    }

    /// Move to the beginning of the current logical line.
    pub fn line_home(&mut self, extend: bool)
        requires
            old(self).wf(),
        ensures
            final(self)@ == line_home_spec(old(self)@, extend),
            final(self).wf(),
    {
        let mut k = self.cursor;
        while k > 0 && self.chars[k - 1] != '\n'
            invariant
                self.wf(),
                k <= self@.cursor,
                line_start(self@.text, self@.cursor as int) == line_start(self@.text, k as int),
            decreases k,
        {
            k = k - 1;
        }
        self.move_to(k, extend);
    }

    /// Move to the end of the current logical line.
    pub fn line_end(&mut self, extend: bool)
        requires
            old(self).wf(),
        ensures
            final(self)@ == line_end_spec(old(self)@, extend),
            final(self).wf(),
    {
        let k = self.newline_from(self.cursor);
        let total = self.text.as_str().as_bytes().len();
        let offset = offset_of(self.chars.as_slice(), k, total);
        self.seek(offset, extend);
    }

    /// The first newline at or after `from`, or the end of the text.
    fn newline_from(&self, from: usize) -> (k: usize)
        requires
            self.wf(),
            from <= self@.text.len(),
        ensures
            k == line_end(self@.text, from as int),
            from <= k <= self@.text.len(),
    {
        let mut k = from;
        while k < self.chars.len() && self.chars[k] != '\n'
            invariant
                self.wf(),
                from <= k <= self@.text.len(),
                line_end(self@.text, from as int) == line_end(self@.text, k as int),
            decreases self@.text.len() - k,
        {
            k = k + 1;
        }
        k
    }

    /// Move within logical lines while preserving the preferred display column.
    pub fn vertical(&mut self, delta: isize, extend: bool)
        requires
            old(self).wf(),
        ensures
            final(self)@ == vertical_spec(old(self)@, delta as int, extend),
            final(self).wf(),
    {
        let ghost t = self@.text;
        let len = self.chars.len();
        let mut starts: Vec<usize> = Vec::new();
        starts.push(0);
        let mut i: usize = 0;
        proof {
            assert(t.take(0) =~= Seq::<char>::empty());
            assert(starts@.map_values(|x: usize| x as nat) =~= line_starts(t.take(0)));
        }
        while i < len
            invariant
                self.wf(),
                t == self@.text,
                len == t.len(),
                i <= len,
                starts@.map_values(|x: usize| x as nat) == line_starts(t.take(i as int)),
            decreases len - i,
        {
            let ghost before = starts@;
            proof {
                assert(t.take(i + 1).drop_last() =~= t.take(i as int));
                assert(t.take(i + 1).last() == t[i as int]);
            }
            if self.chars[i] == '\n' {
                starts.push(i + 1);
                assert(starts@.map_values(|x: usize| x as nat) =~= before.map_values(
                    |x: usize| x as nat,
                ).push((i + 1) as nat));
            }
            i = i + 1;
        }
        let ghost ls = line_starts(t);
        proof {
            assert(t.take(len as int) =~= t);
            line_starts_facts(t);
            assert(starts@.len() == ls.len());
            assert(ls[0] == starts@[0] as nat);
        }
        let mut k: usize = 0;
        while k < starts.len() && starts[k] <= self.cursor
            invariant
                self.wf(),
                t == self@.text,
                ls == line_starts(t),
                starts@.map_values(|x: usize| x as nat) == ls,
                starts@.len() == ls.len(),
                k <= starts@.len(),
                forall|j: int| 0 <= j < k ==> starts@[j] <= self@.cursor,
                starts_upto(ls, self@.cursor, 0) == starts_upto(ls, self@.cursor, k as int),
            decreases starts@.len() - k,
        {
            assert(ls[k as int] == starts@[k as int] as nat);
            k = k + 1;
        }
        proof {
            if k < starts@.len() {
                assert(ls[k as int] == starts@[k as int] as nat);
            }
            if k == 0 {
                assert(ls[0] == starts@[0] as nat);
            }
        }
        let row = k - 1;
        assert(ls[row as int] == starts@[row as int] as nat);
        let column = match self.column {
            Some(c) => c,
            None => {
                let head = slice_of(self.chars.as_slice(), starts[row], self.cursor);
                text_width(string_of(head.as_slice()).as_str())
            },
        };
        let moved = match row.checked_add_signed(delta) {
            Some(r) => r,
            None => if delta < 0 {
                0
            } else {
                usize::MAX
            },
        };
        let next = if moved < starts.len() - 1 {
            moved
        } else {
            starts.len() - 1
        };
        assert(ls[next as int] == starts@[next as int] as nat);
        let from = starts[next];
        let end = self.newline_from(from);
        let line = slice_of(self.chars.as_slice(), from, end);
        let (gs, lens) = clusters(line.as_slice());
        let line_len = line.len();
        let ghost all = gs@.map_values(|g: String| g@);
        let mut m: usize = 0;
        let mut width: usize = 0;
        let mut consumed: usize = 0;
        let mut done = false;
        proof {
            assert(all.take(0) =~= Seq::<Seq<char>>::empty());
            assert(all.take(0).flatten() =~= Seq::<char>::empty());
        }
        while m < lens.len() && !done
            invariant
                m <= lens@.len() == all.len() == gs@.len(),
                all == gs@.map_values(|g: String| g@),
                all == grapheme_clusters(line@),
                all.flatten() == line@,
                forall|j: int| 0 <= j < lens@.len() ==> #[trigger] lens@[j] == all[j].len(),
                consumed == cluster_start(all, m as int),
                consumed <= line@.len(),
                line@.len() == line_len,
                fitting(all, column as nat, 0, 0) == if done {
                    cluster_start(all, m as int)
                } else {
                    fitting(all, column as nat, m as int, width as nat)
                },
            decreases lens@.len() - m + if done { 0int } else { 1int },
        {
            let w = text_width(gs[m].as_str());
            assert(all[m as int] == gs@[m as int]@);
            match width.checked_add(w) {
                Some(x) => {
                    if x <= column {
                        proof {
                            cluster_start_step(all, m as int);
                            cluster_start_bound(all, m + 1);
                        }
                        width = x;
                        consumed = consumed + lens[m];
                        m = m + 1;
                    } else {
                        done = true;
                    }
                },
                None => {
                    done = true;
                },
            }
        }
        proof {
            cluster_start_bound(all, m as int);
        }
        let offset = from + consumed;
        let total = self.text.as_str().as_bytes().len();
        let bytes = offset_of(self.chars.as_slice(), offset, total);
        self.seek(bytes, extend);
        self.column = Some(column);
    }

    /// Undo the latest edit, restoring the text and selection before it.
    pub fn undo(&mut self)
        requires
            old(self).wf(),
        ensures
            final(self)@ == undo_spec(old(self)@),
            final(self).wf(),
    {
        let ghost v = self@;
        match self.undo.pop_back() {
            Some(edit) => {
                let ghost e = edit@;
                proof {
                    assert(edits_view(self.undo@) =~= v.undo.drop_last());
                    assert(e == v.undo.last());
                }
                let chars = spliced(
                    self.chars.as_slice(),
                    edit.start,
                    edit.inserted.len(),
                    edit.removed.as_slice(),
                );
                self.text = string_of(chars.as_slice());
                self.chars = chars;
                self.cursor = edit.before.0;
                self.anchor = edit.before.1;
                self.column = None;
                let ghost redo = self.redo@;
                self.redo.push(edit);
                proof {
                    assert(edits_view(self.redo@) =~= edits_view(redo).push(e));
                    let u = undone(v.text, e);
                    assert(u.subrange(e.start as int, (e.start + e.removed.len()) as int) =~= e.removed);
                    assert(redone(u, e) =~= v.text);
                    assert(edits_view(self.redo@).drop_last() =~= v.redo);
                }
            },
            None => {
                proof {
                    assert(v.undo =~= Seq::<EditView>::empty());
                }
            },
        }
    }

    /// Make the latest undone edit again.
    pub fn redo(&mut self)
        requires
            old(self).wf(),
        ensures
            final(self)@ == redo_spec(old(self)@),
            final(self).wf(),
    {
        let ghost v = self@;
        match self.redo.pop() {
            Some(edit) => {
                let ghost e = edit@;
                proof {
                    assert(edits_view(self.redo@) =~= v.redo.drop_last());
                    assert(e == v.redo.last());
                }
                let chars = spliced(
                    self.chars.as_slice(),
                    edit.start,
                    edit.removed.len(),
                    edit.inserted.as_slice(),
                );
                self.text = string_of(chars.as_slice());
                self.chars = chars;
                self.cursor = edit.after.0;
                self.anchor = edit.after.1;
                self.column = None;
                let ghost undo = self.undo@;
                self.undo.push_back(edit);
                proof {
                    assert(edits_view(self.undo@) =~= edits_view(undo).push(e));
                    let r = redone(v.text, e);
                    assert(r.subrange(e.start as int, (e.start + e.inserted.len()) as int) =~= e.inserted);
                    assert(undone(r, e) =~= v.text);
                    assert(edits_view(self.undo@).drop_last() =~= v.undo);
                }
            },
            None => {
                proof {
                    assert(v.redo =~= Seq::<EditView>::empty());
                }
            },
        }
    }
}

/// Forgetting the oldest edit keeps the rest replayable.
proof fn undo_chain_drop_first(text: Seq<char>, undo: Seq<EditView>)
    requires
        undo_chain(text, undo),
        undo.len() > 0,
    ensures
        undo_chain(text, undo.drop_first()),
    decreases undo.len(),
{
    let rest = undo.drop_first();
    if rest.len() > 0 {
        assert(rest.last() == undo.last());
        assert(rest.drop_last() =~= undo.drop_last().drop_first());
        if undo.drop_last().len() > 0 {
            undo_chain_drop_first(undone(text, undo.last()), undo.drop_last());
        }
    }
}

/// Whether the grapheme clusters of `text` put together give `text` back,
/// as `graphemes` states of every text it is given.
pub open spec fn covers(text: Seq<char>) -> bool {
    grapheme_clusters(text).flatten() == text
}

/// Whether character position `c` is where a grapheme of `gs` starts, or
/// where the last one ends.
pub open spec fn on_boundary(gs: Seq<Seq<char>>, c: int) -> bool {
    exists|m: int| 0 <= m <= gs.len() && #[trigger] cluster_start(gs, m) == c
}

proof fn start_from_on_boundary(gs: Seq<Seq<char>>, end: int, m: int)
    requires
        0 <= m <= gs.len(),
    ensures
        on_boundary(gs, start_from(gs, end, m)),
    decreases gs.len() - m,
{
    if m >= gs.len() {
        assert(gs.take(gs.len() as int) =~= gs);
        assert(cluster_start(gs, gs.len() as int) == start_from(gs, end, m));
    } else if cluster_start(gs, m) >= end {
        assert(cluster_start(gs, m) == start_from(gs, end, m));
    } else {
        start_from_on_boundary(gs, end, m + 1);
    }
}

/// Inserting leaves the cursor where a grapheme of the new text starts, or
/// at its end, never inside a cluster the insertion joined.
pub proof fn insert_lands_on_boundary(v: EditorView, text: Seq<char>)
    ensures
        on_boundary(grapheme_clusters(insert_spec(v, text).text), insert_spec(v, text).cursor as int)
            || insert_spec(v, text) == v,
{
    let (s, e) = v.selection();
    if !(text.len() == 0 && s == e) {
        let t = splice(v.text, s as int, e - s, text);
        start_from_on_boundary(grapheme_clusters(t), (s + text.len()) as int, 0);
    }
}

/// Undoing an insertion gives back the text, cursor and selection from
/// before it.
pub proof fn undo_reverses_insert(v: EditorView, text: Seq<char>)
    requires
        v.wf(),
        text.len() > 0 || v.selection().0 != v.selection().1,
    ensures
        undo_spec(insert_spec(v, text)).text == v.text,
        undo_spec(insert_spec(v, text)).cursor == v.cursor,
        undo_spec(insert_spec(v, text)).anchor == v.anchor,
{
    let (s, e) = v.selection();
    let w = insert_spec(v, text);
    let edit = w.undo.last();
    assert(undone(w.text, edit) =~= v.text);
}

/// Undoing an erasure gives back the text, cursor and selection from
/// before it, not the range that was selected for deletion.
pub proof fn undo_reverses_erase(v: EditorView, backward: bool)
    requires
        v.wf(),
        covers(v.text.take(v.cursor as int)),
        covers(v.text.skip(v.cursor as int)),
        erase_spec(v, backward).text != v.text,
    ensures
        undo_spec(erase_spec(v, backward)).text == v.text,
        undo_spec(erase_spec(v, backward)).cursor == v.cursor,
        undo_spec(erase_spec(v, backward)).anchor == v.anchor,
{
    let (s, e) = v.selection();
    let m = if s == e {
        if backward {
            left_spec(v, true)
        } else {
            right_spec(v, true)
        }
    } else {
        v
    };
    let (s2, e2) = m.selection();
    assert(m.text == v.text);
    if s == e {
        if backward {
            let gs = grapheme_clusters(v.text.take(v.cursor as int));
            if gs.len() > 0 {
                cluster_start_bound(gs, gs.len() - 1);
            }
        } else {
            let gs = grapheme_clusters(v.text.skip(v.cursor as int));
            if gs.len() > 0 {
                cluster_start_step(gs, 0);
                cluster_start_bound(gs, 1);
                assert(gs.take(0) =~= Seq::<Seq<char>>::empty());
                assert(gs.take(0).flatten() =~= Seq::<char>::empty());
            }
        }
    }
    assert(s2 <= e2 <= v.text.len());
    if s2 != e2 {
        let w = insert_spec(m, Seq::empty());
        assert(undone(w.text, w.undo.last()) =~= v.text);
    }
}

/// Redoing what was just undone gives back the text and history before
/// the undo.
pub proof fn redo_reverses_undo(v: EditorView)
    requires
        v.wf(),
        v.undo.len() > 0,
    ensures
        redo_spec(undo_spec(v)).text == v.text,
        redo_spec(undo_spec(v)).undo == v.undo,
        redo_spec(undo_spec(v)).redo == v.redo,
{
    let e = v.undo.last();
    assert(redone(undone(v.text, e), e) =~= v.text);
    assert(v.undo.drop_last().push(e) =~= v.undo);
    assert(v.redo.push(e).drop_last() =~= v.redo);
}

/// Undoing what was just redone gives back the text and history before
/// the redo.
pub proof fn undo_reverses_redo(v: EditorView)
    requires
        v.wf(),
        v.redo.len() > 0,
    ensures
        undo_spec(redo_spec(v)).text == v.text,
        undo_spec(redo_spec(v)).undo == v.undo,
        undo_spec(redo_spec(v)).redo == v.redo,
{
    let e = v.redo.last();
    assert(undone(redone(v.text, e), e) =~= v.text);
    assert(v.redo.drop_last().push(e) =~= v.redo);
    assert(v.undo.push(e).drop_last() =~= v.undo);
}

} // verus!
