//! The row-based text buffer: an always non-empty sequence of rows and a
//! cursor kept as a (row, byte-offset, character-index) triple, with the
//! byte offset and character index in lock-step on every mutation.

use vstd::prelude::*;

use crate::chars::{
    bytes_of, concat_rows, copy_with_insert, copy_without_range, lemma_bytes_of_add,
    lemma_bytes_of_nonneg, lemma_bytes_of_spaces, lemma_bytes_of_take_monotonic, prefix_bytes,
    spaces, spaces_vec, white_of,
};
use crate::handler::Mode;
use crate::motion::{Action, Cmd, Dest, Dir, Motion};
use vstd::pervasive::VecAdditionalExecFns;

verus! {

/// Mathematical state of a buffer: the rows' characters and the cursor
/// triple.
pub ghost struct BufView {
    pub rows: Seq<Seq<char>>,
    pub row: int,
    pub byte: int,
    pub chr: int,
}

/// The rows of a vector of rows, as a sequence of character sequences.
pub open spec fn rows_view(v: Seq<Vec<char>>) -> Seq<Seq<char>> {
    Seq::new(v.len(), |i: int| v[i]@)
}

/// UTF-8 byte length of a whole row sequence.
pub open spec fn total_bytes(rows: Seq<Seq<char>>) -> int
    decreases rows.len(),
{
    if rows.len() == 0 {
        0
    } else {
        bytes_of(rows[0]) + total_bytes(rows.drop_first())
    }
}

pub proof fn lemma_total_bytes_nonneg(rows: Seq<Seq<char>>)
    ensures
        total_bytes(rows) >= 0,
    decreases rows.len(),
{
    if rows.len() > 0 {
        lemma_bytes_of_nonneg(rows[0]);
        lemma_total_bytes_nonneg(rows.drop_first());
    }
}

pub proof fn lemma_total_bytes_add(a: Seq<Seq<char>>, b: Seq<Seq<char>>)
    ensures
        total_bytes(a + b) == total_bytes(a) + total_bytes(b),
    decreases a.len(),
{
    if a.len() == 0 {
        assert(a + b =~= b);
    } else {
        assert((a + b)[0] == a[0]);
        assert((a + b).drop_first() =~= a.drop_first() + b);
        lemma_total_bytes_add(a.drop_first(), b);
    }
}

pub proof fn lemma_total_bytes_singleton(r: Seq<char>)
    ensures
        total_bytes(seq![r]) == bytes_of(r),
{
    assert(seq![r].drop_first() =~= Seq::<Seq<char>>::empty());
    assert(total_bytes(Seq::<Seq<char>>::empty()) == 0);
}

/// The byte length of a row sequence splits around any one row.
pub proof fn lemma_total_bytes_split(rows: Seq<Seq<char>>, i: int)
    requires
        0 <= i < rows.len(),
    ensures
        total_bytes(rows) == total_bytes(rows.take(i)) + bytes_of(rows[i]) + total_bytes(
            rows.skip(i + 1),
        ),
{
    assert(rows =~= rows.take(i) + seq![rows[i]] + rows.skip(i + 1));
    lemma_total_bytes_add(rows.take(i) + seq![rows[i]], rows.skip(i + 1));
    lemma_total_bytes_add(rows.take(i), seq![rows[i]]);
    lemma_total_bytes_singleton(rows[i]);
}

/// No single row is longer, in bytes, than the whole sequence.
pub proof fn lemma_row_bytes_le_total(rows: Seq<Seq<char>>, i: int)
    requires
        0 <= i < rows.len(),
    ensures
        bytes_of(rows[i]) <= total_bytes(rows),
{
    lemma_total_bytes_split(rows, i);
    lemma_total_bytes_nonneg(rows.take(i));
    lemma_total_bytes_nonneg(rows.skip(i + 1));
}

/// A row's byte length splits around any character range.
pub proof fn lemma_bytes_of_parts(s: Seq<char>, a: int, b: int)
    requires
        0 <= a <= b <= s.len(),
    ensures
        bytes_of(s) == bytes_of(s.take(a)) + bytes_of(s.subrange(a, b)) + bytes_of(s.skip(b)),
{
    assert(s =~= s.take(a) + s.subrange(a, b) + s.skip(b));
    lemma_bytes_of_add(s.take(a) + s.subrange(a, b), s.skip(b));
    lemma_bytes_of_add(s.take(a), s.subrange(a, b));
}

pub proof fn lemma_total_bytes_update(rows: Seq<Seq<char>>, i: int, r: Seq<char>)
    requires
        0 <= i < rows.len(),
    ensures
        total_bytes(rows.update(i, r)) == total_bytes(rows) - bytes_of(rows[i]) + bytes_of(r),
{
    lemma_total_bytes_split(rows, i);
    assert(rows.update(i, r) =~= rows.take(i) + seq![r] + rows.skip(i + 1));
    lemma_total_bytes_add(rows.take(i) + seq![r], rows.skip(i + 1));
    lemma_total_bytes_add(rows.take(i), seq![r]);
    lemma_total_bytes_singleton(r);
}

pub proof fn lemma_total_bytes_remove(rows: Seq<Seq<char>>, i: int)
    requires
        0 <= i < rows.len(),
    ensures
        total_bytes(rows.remove(i)) == total_bytes(rows) - bytes_of(rows[i]),
{
    lemma_total_bytes_split(rows, i);
    assert(rows.remove(i) =~= rows.take(i) + rows.skip(i + 1));
    lemma_total_bytes_add(rows.take(i), rows.skip(i + 1));
}

pub proof fn lemma_total_bytes_insert(rows: Seq<Seq<char>>, i: int, r: Seq<char>)
    requires
        0 <= i <= rows.len(),
    ensures
        total_bytes(rows.insert(i, r)) == total_bytes(rows) + bytes_of(r),
{
    assert(rows =~= rows.take(i) + rows.skip(i));
    assert(rows.insert(i, r) =~= rows.take(i) + seq![r] + rows.skip(i));
    lemma_total_bytes_add(rows.take(i), rows.skip(i));
    lemma_total_bytes_add(rows.take(i) + seq![r], rows.skip(i));
    lemma_total_bytes_add(rows.take(i), seq![r]);
    lemma_total_bytes_singleton(r);
}

pub proof fn lemma_rows_view_update(v: Seq<Vec<char>>, i: int, x: Vec<char>)
    requires
        0 <= i < v.len(),
    ensures
        rows_view(v.update(i, x)) =~= rows_view(v).update(i, x@),
{
}

pub proof fn lemma_rows_view_remove(v: Seq<Vec<char>>, i: int)
    requires
        0 <= i < v.len(),
    ensures
        rows_view(v.remove(i)) =~= rows_view(v).remove(i),
{
    assert forall|j: int| 0 <= j < v.len() - 1 implies rows_view(v.remove(i))[j] == rows_view(
        v,
    ).remove(i)[j] by {
        if j < i {
            assert(v.remove(i)[j] == v[j]);
        } else {
            assert(v.remove(i)[j] == v[j + 1]);
        }
    }
}

pub proof fn lemma_rows_view_insert(v: Seq<Vec<char>>, i: int, x: Vec<char>)
    requires
        0 <= i <= v.len(),
    ensures
        rows_view(v.insert(i, x)) =~= rows_view(v).insert(i, x@),
{
    assert forall|j: int| 0 <= j < v.len() + 1 implies rows_view(v.insert(i, x))[j] == rows_view(
        v,
    ).insert(i, x@)[j] by {
        if j < i {
            assert(v.insert(i, x)[j] == v[j]);
        } else if j == i {
            assert(v.insert(i, x)[j] == x);
        } else {
            assert(v.insert(i, x)[j] == v[j - 1]);
        }
    }
}

/// Number of leading whitespace characters of a row: the auto-indent run.
pub open spec fn leading_ws(s: Seq<char>) -> int
    decreases s.len(),
{
    if s.len() == 0 {
        0
    } else if white_of(s[0]) {
        1 + leading_ws(s.drop_first())
    } else {
        0
    }
}

pub proof fn lemma_leading_ws_character(s: Seq<char>)
    ensures
        0 <= leading_ws(s) <= s.len(),
        forall|j: int| 0 <= j < leading_ws(s) ==> white_of(s[j]),
        leading_ws(s) < s.len() ==> !white_of(s[leading_ws(s)]),
    decreases s.len(),
{
    if s.len() > 0 && white_of(s[0]) {
        lemma_leading_ws_character(s.drop_first());
        assert(forall|j: int|
            0 < j < leading_ws(s) ==> white_of(#[trigger] s[j]) == white_of(
                s.drop_first()[j - 1],
            ));
    }
}

/// A buffer state with the byte offset recomputed from the row and
/// character index; every transition below yields a state of this shape.
pub open spec fn mk_view(rows: Seq<Seq<char>>, row: int, chr: int) -> BufView {
    BufView { rows, row, chr, byte: bytes_of(rows[row].take(chr)) }
}

/// Buffer invariant over the mathematical state.
pub open spec fn view_wf(v: BufView) -> bool {
    &&& v.rows.len() >= 1
    &&& 0 <= v.row < v.rows.len()
    &&& 0 <= v.chr <= v.rows[v.row].len()
    &&& v.byte == bytes_of(v.rows[v.row].take(v.chr))
    &&& total_bytes(v.rows) <= usize::MAX
}

/// Cursor movement. Left and right adjust the character index within the
/// row, clamping at the row start and sliding to one-past-end at the row
/// end; up and down change the row, clamped to the first and last row, and
/// keep the column where the destination row is long enough.
pub open spec fn move_spec(v: BufView, by: int, dir: Dir) -> BufView {
    match dir {
        Dir::L => mk_view(v.rows, v.row, if v.chr >= by { v.chr - by } else { 0 }),
        Dir::R => {
            let len = v.rows[v.row].len() as int;
            mk_view(v.rows, v.row, if v.chr + by < len { v.chr + by } else { len })
        },
        Dir::U | Dir::D => {
            let r2 = if dir is U {
                if v.row >= by { v.row - by } else { 0 }
            } else {
                if v.row + by < v.rows.len() { v.row + by } else { v.rows.len() - 1 }
            };
            let l2 = v.rows[r2].len() as int;
            mk_view(v.rows, r2, if v.chr <= l2 { v.chr } else { l2 })
        },
    }
}

/// The Edit-mode clamp: a cursor resting past the last character of a
/// non-empty row is pulled back onto the last character.
pub open spec fn clamp_spec(v: BufView) -> BufView {
    let len = v.rows[v.row].len() as int;
    if v.chr >= len && len > 0 {
        mk_view(v.rows, v.row, len - 1)
    } else {
        mk_view(v.rows, v.row, v.chr)
    }
}

/// Cutting leftwards. At column zero of a later row, in Insert mode, the
/// current row is merged into the end of the previous row (backspace joins
/// lines); otherwise up to `n` characters left of the cursor are removed,
/// fewer if the row start comes first.
pub open spec fn cut_left_spec(v: BufView, n: int, mode: Mode) -> BufView {
    let cur = v.rows[v.row];
    if v.chr == 0 && v.row > 0 && mode == Mode::Insert {
        let prev = v.rows[v.row - 1];
        mk_view(
            v.rows.update(v.row - 1, prev + cur).remove(v.row),
            v.row - 1,
            prev.len() as int,
        )
    } else if v.chr >= n {
        mk_view(v.rows.update(v.row, cur.take(v.chr - n) + cur.skip(v.chr)), v.row, v.chr - n)
    } else {
        mk_view(v.rows.update(v.row, cur.skip(v.chr)), v.row, 0)
    }
}

/// Cutting rightwards: up to `n` characters at and after the cursor are
/// removed; if the cut exhausts the row the cursor is clamped onto the new
/// last character.
pub open spec fn cut_right_spec(v: BufView, n: int) -> BufView {
    let cur = v.rows[v.row];
    let len = cur.len() as int;
    if v.chr + n < len {
        mk_view(v.rows.update(v.row, cur.take(v.chr) + cur.skip(v.chr + n)), v.row, v.chr)
    } else {
        mk_view(v.rows.update(v.row, cur.take(v.chr)), v.row, if v.chr > 0 { v.chr - 1 } else { 0 })
    }
}

/// Row deletion: removes up to `n` rows starting at the cursor row and
/// never touches the rows above it; a count beyond the rows below clamps.
/// Were every row removed, a single cleared row remains instead (the row
/// count never reaches zero). The cursor stays on its row where it
/// survives, else on the last remaining row.
pub open spec fn delete_rows_spec(rows: Seq<Seq<char>>, row: int, n: int) -> (Seq<Seq<char>>, int) {
    let h = rows.len() as int;
    let k = if n <= h - row {
        n
    } else {
        h - row
    };
    let kept = rows.take(row) + rows.skip(row + k);
    if kept.len() == 0 {
        (seq![Seq::<char>::empty()], 0int)
    } else {
        (kept, if row < kept.len() {
            row
        } else {
            kept.len() - 1
        })
    }
}

/// Deleting `n` rows downward from the cursor row. Deleting zero rows
/// changes nothing; afterwards a cursor left beyond its row's end is
/// snapped onto the last character.
pub open spec fn delete_lines_spec(v: BufView, n: int) -> BufView {
    if n == 0 {
        v
    } else {
        let (rows2, row2) = delete_rows_spec(v.rows, v.row, n);
        let len2 = rows2[row2].len() as int;
        let chr2 = if v.chr > len2 {
            if len2 > 0 { len2 - 1 } else { 0 }
        } else {
            v.chr
        };
        mk_view(rows2, row2, chr2)
    }
}

/// Deletion preserves the invariant's structural bounds and never grows
/// the content.
pub proof fn lemma_delete_rows_wf(rows: Seq<Seq<char>>, row: int, n: int)
    requires
        rows.len() >= 1,
        0 <= row < rows.len(),
        0 <= n,
    ensures
        delete_rows_spec(rows, row, n).0.len() >= 1,
        0 <= delete_rows_spec(rows, row, n).1 < delete_rows_spec(rows, row, n).0.len(),
        total_bytes(delete_rows_spec(rows, row, n).0) <= total_bytes(rows),
{
    let h = rows.len() as int;
    let k = if n <= h - row {
        n
    } else {
        h - row
    };
    lemma_total_bytes_nonneg(rows);
    assert(rows =~= rows.take(row) + rows.subrange(row, row + k) + rows.skip(row + k));
    lemma_total_bytes_add(rows.take(row) + rows.subrange(row, row + k), rows.skip(row + k));
    lemma_total_bytes_add(rows.take(row), rows.subrange(row, row + k));
    lemma_total_bytes_add(rows.take(row), rows.skip(row + k));
    lemma_total_bytes_nonneg(rows.subrange(row, row + k));
    let kept = rows.take(row) + rows.skip(row + k);
    if kept.len() == 0 {
        lemma_total_bytes_singleton(Seq::<char>::empty());
        assert(bytes_of(Seq::<char>::empty()) == 0);
    }
}

/// Splicing text into the cursor's row at the cursor's position; the
/// cursor advances past the inserted text.
pub open spec fn insert_spec(v: BufView, s: Seq<char>) -> BufView {
    let cur = v.rows[v.row];
    mk_view(
        v.rows.update(v.row, cur.take(v.chr) + s + cur.skip(v.chr)),
        v.row,
        v.chr + s.len(),
    )
}

/// Opening a new row beside the cursor's row, prefixed with the current
/// row's leading-whitespace run (auto-indent). Downward with `split`, the
/// text at and after the cursor moves onto the new row; downward without
/// `split` and upward, the new row holds the indent alone. The cursor
/// lands on the new row at the end of the indent.
pub open spec fn newline_spec(v: BufView, dir: Dir, split: bool) -> BufView {
    let cur = v.rows[v.row];
    let ind = leading_ws(cur);
    if dir is D {
        if split {
            mk_view(
                v.rows.update(v.row, cur.take(v.chr)).insert(
                    v.row + 1,
                    spaces(ind) + cur.skip(v.chr),
                ),
                v.row + 1,
                ind,
            )
        } else {
            mk_view(v.rows.insert(v.row + 1, spaces(ind)), v.row + 1, ind)
        }
    } else {
        mk_view(v.rows.insert(v.row, spaces(ind)), v.row, ind)
    }
}

/// Jump to one past the end of the current row.
pub open spec fn endl_spec(v: BufView) -> BufView {
    mk_view(v.rows, v.row, v.rows[v.row].len() as int)
}

/// Jump to the first character after the current row's leading whitespace.
pub open spec fn txtstart_spec(v: BufView) -> BufView {
    mk_view(v.rows, v.row, leading_ws(v.rows[v.row]))
}

/// A motion the buffer accepts: a verb with either a counted direction or
/// a destination, where `Move` to the whole-line destination is excluded
/// (whole-line is a cut form).
pub open spec fn valid_motion(m: Motion) -> bool {
    &&& crate::motion::complete(m)
    &&& !(m.buf[0] == Cmd::Verb(Action::Move) && m.buf[1] is ToDest && m.buf[1]->ToDest_0 is Line)
}

/// Effect of a whole motion on the buffer state: the verb is dispatched
/// over its counted direction or destination, and in Edit mode the cursor
/// is re-clamped afterwards so it never rests past the last character.
pub open spec fn apply_motion_spec(v: BufView, m: Motion, mode: Mode) -> BufView {
    let verb = m.buf[0]->Verb_0;
    let w = if m.buf[1] is By {
        let n = m.buf[1]->By_0 as int;
        let dir = m.buf[2]->ToDir_0;
        if verb is Cut {
            match dir {
                Dir::L => cut_left_spec(v, n, mode),
                Dir::R => cut_right_spec(v, n),
                Dir::D => delete_lines_spec(v, n),
                Dir::U => v,
            }
        } else {
            move_spec(v, n, dir)
        }
    } else {
        let dest = m.buf[1]->ToDest_0;
        if verb is Cut {
            match dest {
                Dest::TxtStart => delete_lines_spec(v, 1),
                Dest::Line => delete_lines_spec(v, 1),
                Dest::Endl => cut_right_spec(v, usize::MAX as int),
            }
        } else {
            match dest {
                Dest::Endl => endl_spec(v),
                Dest::TxtStart => txtstart_spec(v),
                Dest::Line => v,
            }
        }
    };
    if mode is Edit {
        clamp_spec(w)
    } else {
        w
    }
}

/// The text buffer: rows of characters and the cursor. The buffer is never
/// empty; deleting the last remaining row clears it instead.
pub struct Buffer {
    buf: Vec<Vec<char>>,
    row: usize,
    byte: usize,
    chr: usize,
}

impl View for Buffer {
    type V = BufView;

    closed spec fn view(&self) -> BufView {
        BufView {
            rows: rows_view(self.buf@),
            row: self.row as int,
            byte: self.byte as int,
            chr: self.chr as int,
        }
    }
}

impl Buffer {
    /// The row the cursor is on.
    pub open spec fn cur_row(self) -> Seq<char> {
        self@.rows[self@.row]
    }

    /// Buffer invariant: at least one row; the cursor's row exists; the
    /// character index is within its row; the byte offset is exactly the
    /// encoded length of the characters before the cursor; and the whole
    /// content fits in the address space.
    pub open spec fn wf(self) -> bool {
        view_wf(self@)
    }

    /// A buffer holding one empty row, cursor at the origin.
    pub fn empty() -> (b: Buffer)
        ensures
            b.wf(),
            b@.rows =~= seq![Seq::<char>::empty()],
            b@.row == 0,
            b@.chr == 0,
            b@.byte == 0,
    {
        let mut buf: Vec<Vec<char>> = Vec::new();
        buf.push(Vec::new());
        let b = Buffer { buf, row: 0, byte: 0, chr: 0 };
        proof {
            assert(b@.rows =~= seq![Seq::<char>::empty()]);
            assert(b.cur_row().take(0) =~= Seq::<char>::empty());
            assert(total_bytes(b@.rows) == 0) by {
                lemma_total_bytes_singleton(Seq::<char>::empty());
                assert(b@.rows =~= seq![Seq::<char>::empty()]);
            }
        }
        b
    }

    /// A buffer over the given rows, cursor at the origin.
    pub fn _from_lines(lines: Vec<Vec<char>>) -> (b: Buffer)
        requires
            lines@.len() >= 1,
            total_bytes(rows_view(lines@)) <= usize::MAX,
        ensures
            b.wf(),
            b@.rows == rows_view(lines@),
            b@.row == 0,
            b@.chr == 0,
            b@.byte == 0,
    {
        let b = Buffer { buf: lines, row: 0, byte: 0, chr: 0 };
        proof {
            assert(b.cur_row().take(0) =~= Seq::<char>::empty());
        }
        b
    }

    /// Replace this buffer wholesale, e.g. when restoring a snapshot.
    pub fn set(&mut self, buf: Self)
        ensures
            *final(self) == buf,
    {
        *self = buf;
    }

    /// Number of rows.
    pub fn height(&self) -> (h: usize)
        ensures
            h == self@.rows.len(),
    {
        self.buf.len()
    }

    /// Whether the buffer holds no rows at all; under the buffer invariant
    /// this is never the case.
    pub fn is_empty(&self) -> (r: bool)
        ensures
            r == (self@.rows.len() == 0),
    {
        self.buf.len() == 0
    }

    /// The cursor's row index.
    pub fn row(&self) -> (r: usize)
        ensures
            r == self@.row,
    {
        self.row
    }

    /// The cursor's character index within its row.
    pub fn char_idx(&self) -> (r: usize)
        ensures
            r == self@.chr,
    {
        self.chr
    }

    /// The cursor's byte offset within its row.
    pub fn byte_offset(&self) -> (r: usize)
        ensures
            r == self@.byte,
    {
        self.byte
    }

    /// The characters of row `n`.
    pub fn nth(&self, n: usize) -> (r: &Vec<char>)
        requires
            n < self@.rows.len(),
        ensures
            r@ == self@.rows[n as int],
    {
        &self.buf[n]
    }

    /// Character count of the cursor's row.
    fn char_len(&self) -> (r: usize)
        requires
            self@.row < self@.rows.len(),
        ensures
            r == self.cur_row().len(),
    {
        self.buf[self.row].len()
    }

    /// Byte count of the cursor's row.
    fn byte_len(&self) -> (r: usize)
        requires
            self@.row < self@.rows.len(),
            bytes_of(self.cur_row()) <= usize::MAX,
        ensures
            r == bytes_of(self.cur_row()),
    {
        let row = &self.buf[self.row];
        let r = prefix_bytes(row, row.len());
        proof {
            assert(row@.take(row@.len() as int) =~= row@);
        }
        r
    }

    /// Reposition the cursor by `by` steps in direction `dir`, without
    /// touching content.
    pub fn move_cursor(&mut self, by: usize, dir: Dir)
        requires
            old(self).wf(),
        ensures
            final(self).wf(),
            final(self)@ == move_spec(old(self)@, by as int, dir),
    {
        proof {
            lemma_row_bytes_le_total(self@.rows, self@.row);
        }
        match dir {
            Dir::L => {
                if self.chr >= by {
                    self.chr = self.chr - by;
                } else {
                    self.chr = 0;
                }
                proof {
                    lemma_bytes_of_take_monotonic(
                        self.cur_row(),
                        self@.chr,
                        self.cur_row().len() as int,
                    );
                    assert(self.cur_row().take(self.cur_row().len() as int) =~= self.cur_row());
                }
                self.byte = prefix_bytes(&self.buf[self.row], self.chr);
            },
            Dir::R => {
                let len = self.buf[self.row].len();
                if self.chr < len && by < len - self.chr {
                    self.chr = self.chr + by;
                } else {
                    self.chr = len;
                }
                proof {
                    lemma_bytes_of_take_monotonic(
                        self.cur_row(),
                        self@.chr,
                        self.cur_row().len() as int,
                    );
                    assert(self.cur_row().take(self.cur_row().len() as int) =~= self.cur_row());
                }
                self.byte = prefix_bytes(&self.buf[self.row], self.chr);
            },
            Dir::U | Dir::D => {
                let target: usize = match dir {
                    Dir::U => if self.row >= by {
                        self.row - by
                    } else {
                        0
                    },
                    _ => {
                        let h = self.buf.len();
                        if by < h - self.row {
                            self.row + by
                        } else {
                            h - 1
                        }
                    },
                };
                self.row = target;
                let len = self.buf[self.row].len();
                if self.chr > len {
                    self.chr = len;
                }
                proof {
                    lemma_row_bytes_le_total(self@.rows, self@.row);
                    lemma_bytes_of_take_monotonic(
                        self.cur_row(),
                        self@.chr,
                        self.cur_row().len() as int,
                    );
                    assert(self.cur_row().take(self.cur_row().len() as int) =~= self.cur_row());
                }
                self.byte = prefix_bytes(&self.buf[self.row], self.chr);
            },
        }
    }

    /// The Edit-mode clamp: pull a cursor resting one past the end of a
    /// non-empty row back onto its last character.
    pub fn jump_back_if_end(&mut self)
        requires
            old(self).wf(),
        ensures
            final(self).wf(),
            final(self)@ == clamp_spec(old(self)@),
    {
        let len = self.char_len();
        if self.chr >= len && len > 0 {
            self.chr = len - 1;
            proof {
                lemma_row_bytes_le_total(self@.rows, self@.row);
                lemma_bytes_of_take_monotonic(
                    self.cur_row(),
                    self@.chr,
                    self.cur_row().len() as int,
                );
                assert(self.cur_row().take(self.cur_row().len() as int) =~= self.cur_row());
            }
            self.byte = prefix_bytes(&self.buf[self.row], self.chr);
        }
    }

    /// Remove up to `n` rows starting at the cursor row; rows above the
    /// cursor are never touched and a count beyond the rows below clamps.
    /// The last surviving row is cleared rather than removed, a count of
    /// zero changes nothing, and a cursor beyond its new row's end snaps
    /// onto the last character.
    pub fn delete_lines_down(&mut self, n: usize)
        requires
            old(self).wf(),
        ensures
            final(self).wf(),
            final(self)@ == delete_lines_spec(old(self)@, n as int),
            final(self)@.rows.len() >= 1,
    {
        if n == 0 {
            return ;
        }
        let ghost v0 = self@;
        let h = self.buf.len();
        let avail = h - self.row;
        let k = if n < avail {
            n
        } else {
            avail
        };
        let mut i: usize = 0;
        while i < k
            invariant
                i <= k,
                k <= v0.rows.len() - v0.row,
                0 <= v0.row < v0.rows.len(),
                self@.row == v0.row,
                self@.chr == v0.chr,
                self@.rows.len() == v0.rows.len() - i,
                self@.rows =~= v0.rows.take(v0.row) + v0.rows.skip(v0.row + i),
            decreases k - i,
        {
            let ghost rows_a = self@.rows;
            let ghost ba = self.buf@;
            self.buf.remove(self.row);
            proof {
                lemma_rows_view_remove(ba, v0.row);
                assert(self@.rows =~= rows_a.remove(v0.row));
                assert forall|j: int| 0 <= j < rows_a.len() - 1 implies rows_a.remove(v0.row)[j]
                    == (v0.rows.take(v0.row) + v0.rows.skip(v0.row + i + 1))[j] by {
                    if j < v0.row {
                        assert(rows_a.remove(v0.row)[j] == rows_a[j]);
                    } else {
                        assert(rows_a.remove(v0.row)[j] == rows_a[j + 1]);
                    }
                }
                assert(self@.rows =~= v0.rows.take(v0.row) + v0.rows.skip(v0.row + i + 1));
            }
            i = i + 1;
        }
        proof {
            lemma_delete_rows_wf(v0.rows, v0.row, n as int);
        }
        if self.buf.len() == 0 {
            self.buf.push(Vec::new());
            self.row = 0;
            proof {
                assert(self@.rows =~= seq![Seq::<char>::empty()]);
            }
        } else {
            if self.row >= self.buf.len() {
                self.row = self.buf.len() - 1;
            }
        }
        proof {
            assert((self@.rows, self@.row) == delete_rows_spec(v0.rows, v0.row, n as int));
        }
        let len = self.char_len();
        if self.chr > len {
            self.chr = if len > 0 {
                len - 1
            } else {
                0
            };
        }
        proof {
            lemma_row_bytes_le_total(self@.rows, self@.row);
            lemma_bytes_of_take_monotonic(self.cur_row(), self@.chr, self.cur_row().len() as int);
            assert(self.cur_row().take(self.cur_row().len() as int) =~= self.cur_row());
        }
        self.byte = prefix_bytes(&self.buf[self.row], self.chr);
    }

    /// Remove up to `n` characters beside the cursor in direction `dir`;
    /// leftwards at column zero of a later row, in Insert mode, the row is
    /// instead merged into the previous one; downwards whole rows are
    /// deleted; upwards nothing happens.
    pub fn remove_at_cursor(&mut self, n: usize, dir: Dir, mode: Mode)
        requires
            old(self).wf(),
        ensures
            final(self).wf(),
            final(self)@ == match dir {
                Dir::L => cut_left_spec(old(self)@, n as int, mode),
                Dir::R => cut_right_spec(old(self)@, n as int),
                Dir::D => delete_lines_spec(old(self)@, n as int),
                Dir::U => old(self)@,
            },
    {
        let ghost v0 = self@;
        let ghost b0 = self.buf@;
        match dir {
            Dir::L => {
                let is_insert = matches!(mode, Mode::Insert);
                if self.chr == 0 && self.row > 0 && is_insert {
                    let cur = self.buf.remove(self.row);
                    proof {
                        lemma_rows_view_remove(b0, v0.row);
                    }
                    self.row = self.row - 1;
                    let prev_len = self.buf[self.row].len();
                    let joined = concat_rows(&self.buf[self.row], &cur);
                    let ghost rows_a = self@.rows;
                    let ghost ba = self.buf@;
                    self.buf.set(self.row, joined);
                    proof {
                        lemma_rows_view_update(ba, v0.row - 1, self.buf@[v0.row - 1]);
                    }
                    self.chr = prev_len;
                    proof {
                        let prev = v0.rows[v0.row - 1];
                        let curs = v0.rows[v0.row];
                        assert(self@.rows =~= v0.rows.remove(v0.row).update(v0.row - 1, prev + curs));
                        assert(self@.rows =~= v0.rows.update(v0.row - 1, prev + curs).remove(v0.row));
                        lemma_total_bytes_remove(v0.rows.update(v0.row - 1, prev + curs), v0.row);
                        lemma_total_bytes_update(v0.rows, v0.row - 1, prev + curs);
                        lemma_bytes_of_add(prev, curs);
                        assert(total_bytes(self@.rows) == total_bytes(v0.rows));
                        lemma_row_bytes_le_total(self@.rows, self@.row);
                        lemma_bytes_of_take_monotonic(
                            self.cur_row(),
                            self@.chr,
                            self.cur_row().len() as int,
                        );
                        assert(self.cur_row().take(self.cur_row().len() as int) =~= self.cur_row());
                    }
                    self.byte = prefix_bytes(&self.buf[self.row], self.chr);
                    proof {
                        assert(self.cur_row().take(self@.chr) =~= v0.rows[v0.row - 1]);
                    }
                    return ;
                }
                if self.chr >= n {
                    let new_row = copy_without_range(&self.buf[self.row], self.chr - n, self.chr);
                    self.buf.set(self.row, new_row);
                    self.chr = self.chr - n;
                    proof {
                        lemma_rows_view_update(b0, v0.row, self.buf@[v0.row]);
                        assert(self@.rows =~= v0.rows.update(
                            v0.row,
                            v0.rows[v0.row].take(v0.chr - n) + v0.rows[v0.row].skip(v0.chr),
                        ));
                        lemma_total_bytes_update(v0.rows, v0.row, new_row@);
                        lemma_bytes_of_parts(v0.rows[v0.row], v0.chr - n, v0.chr);
                        lemma_bytes_of_add(
                            v0.rows[v0.row].take(v0.chr - n),
                            v0.rows[v0.row].skip(v0.chr),
                        );
                        lemma_bytes_of_nonneg(v0.rows[v0.row].subrange(v0.chr - n, v0.chr));
                        lemma_total_bytes_nonneg(v0.rows);
                        lemma_row_bytes_le_total(self@.rows, self@.row);
                        lemma_bytes_of_take_monotonic(
                            self.cur_row(),
                            self@.chr,
                            self.cur_row().len() as int,
                        );
                        assert(self.cur_row().take(self.cur_row().len() as int) =~= self.cur_row());
                    }
                    self.byte = prefix_bytes(&self.buf[self.row], self.chr);
                    proof {
                        assert(self.cur_row().take(self@.chr) =~= v0.rows[v0.row].take(v0.chr - n));
                    }
                } else {
                    let new_row = copy_without_range(&self.buf[self.row], 0, self.chr);
                    self.buf.set(self.row, new_row);
                    self.chr = 0;
                    self.byte = 0;
                    proof {
                        lemma_rows_view_update(b0, v0.row, self.buf@[v0.row]);
                        assert(new_row@ =~= v0.rows[v0.row].skip(v0.chr));
                        assert(self@.rows =~= v0.rows.update(v0.row, v0.rows[v0.row].skip(v0.chr)));
                        lemma_total_bytes_update(v0.rows, v0.row, new_row@);
                        lemma_bytes_of_parts(v0.rows[v0.row], 0, v0.chr);
                        lemma_bytes_of_nonneg(v0.rows[v0.row].subrange(0, v0.chr));
                        lemma_bytes_of_nonneg(v0.rows[v0.row].take(0));
                        assert(self.cur_row().take(0) =~= Seq::<char>::empty());
                    }
                }
            },
            Dir::R => {
                let len = self.buf[self.row].len();
                if self.chr < len && n < len - self.chr {
                    let new_row = copy_without_range(&self.buf[self.row], self.chr, self.chr + n);
                    self.buf.set(self.row, new_row);
                    proof {
                        lemma_rows_view_update(b0, v0.row, self.buf@[v0.row]);
                        assert(self@.rows =~= v0.rows.update(
                            v0.row,
                            v0.rows[v0.row].take(v0.chr) + v0.rows[v0.row].skip(v0.chr + n),
                        ));
                        lemma_total_bytes_update(v0.rows, v0.row, new_row@);
                        lemma_bytes_of_parts(v0.rows[v0.row], v0.chr, v0.chr + n);
                        lemma_bytes_of_add(
                            v0.rows[v0.row].take(v0.chr),
                            v0.rows[v0.row].skip(v0.chr + n),
                        );
                        lemma_bytes_of_nonneg(v0.rows[v0.row].subrange(v0.chr, v0.chr + n));
                        assert(self.cur_row().take(self@.chr) =~= v0.rows[v0.row].take(v0.chr));
                    }
                } else {
                    let new_row = copy_without_range(&self.buf[self.row], self.chr, len);
                    self.buf.set(self.row, new_row);
                    proof {
                        lemma_rows_view_update(b0, v0.row, self.buf@[v0.row]);
                        assert(v0.rows[v0.row].skip(v0.rows[v0.row].len() as int)
                            =~= Seq::<char>::empty());
                        assert(new_row@ =~= v0.rows[v0.row].take(v0.chr));
                        assert(self@.rows =~= v0.rows.update(v0.row, v0.rows[v0.row].take(v0.chr)));
                        lemma_total_bytes_update(v0.rows, v0.row, new_row@);
                        lemma_bytes_of_parts(v0.rows[v0.row], v0.chr, v0.rows[v0.row].len() as int);
                        lemma_bytes_of_nonneg(
                            v0.rows[v0.row].subrange(v0.chr, v0.rows[v0.row].len() as int),
                        );
                        lemma_bytes_of_nonneg(v0.rows[v0.row].skip(v0.rows[v0.row].len() as int));
                    }
                    if self.chr > 0 {
                        self.chr = self.chr - 1;
                    }
                    proof {
                        lemma_row_bytes_le_total(self@.rows, self@.row);
                        lemma_bytes_of_take_monotonic(
                            self.cur_row(),
                            self@.chr,
                            self.cur_row().len() as int,
                        );
                        assert(self.cur_row().take(self.cur_row().len() as int) =~= self.cur_row());
                    }
                    self.byte = prefix_bytes(&self.buf[self.row], self.chr);
                }
            },
            Dir::D => {
                self.delete_lines_down(n);
            },
            Dir::U => {},
        }
    }

    /// Splice `s` into the current row at the cursor; the cursor advances
    /// past the inserted text, its byte offset by the text's encoded
    /// length and its character index by the character count.
    pub fn insert_at_cursor(&mut self, s: &Vec<char>)
        requires
            old(self).wf(),
            total_bytes(old(self)@.rows) + bytes_of(s@) <= usize::MAX,
        ensures
            final(self).wf(),
            final(self)@ == insert_spec(old(self)@, s@),
    {
        let ghost v0 = self@;
        let ghost b0 = self.buf@;
        proof {
            lemma_total_bytes_nonneg(v0.rows);
            lemma_row_bytes_le_total(v0.rows, v0.row);
            lemma_bytes_of_nonneg(s@);
            lemma_bytes_of_nonneg(v0.rows[v0.row]);
            lemma_bytes_of_take_monotonic(v0.rows[v0.row], v0.chr, v0.rows[v0.row].len() as int);
            assert(v0.rows[v0.row].take(v0.rows[v0.row].len() as int) =~= v0.rows[v0.row]);
        }
        let new_row = copy_with_insert(&self.buf[self.row], self.chr, s);
        self.buf.set(self.row, new_row);
        self.chr = self.chr + s.len();
        let bs = prefix_bytes(s, s.len());
        proof {
            assert(s@.take(s@.len() as int) =~= s@);
        }
        self.byte = self.byte + bs;
        proof {
            let cur = v0.rows[v0.row];
            lemma_rows_view_update(b0, v0.row, self.buf@[v0.row]);
            assert(self@.rows =~= v0.rows.update(v0.row, cur.take(v0.chr) + s@ + cur.skip(v0.chr)));
            let nr = cur.take(v0.chr) + s@ + cur.skip(v0.chr);
            assert(nr.take(v0.chr + s@.len()) =~= cur.take(v0.chr) + s@);
            lemma_bytes_of_add(cur.take(v0.chr), s@);
            lemma_total_bytes_update(v0.rows, v0.row, nr);
            lemma_bytes_of_add(cur.take(v0.chr) + s@, cur.skip(v0.chr));
            lemma_bytes_of_parts(cur, v0.chr, v0.chr);
            assert(cur.subrange(v0.chr, v0.chr) =~= Seq::<char>::empty());
            assert(bytes_of(Seq::<char>::empty()) == 0);
        }
    }

    /// Open a new row beside the cursor's row, carrying the current row's
    /// auto-indent; downward with `split` the text after the cursor moves
    /// onto it. The cursor lands on the new row at the end of the indent.
    pub fn insert_newline(&mut self, dir: Dir, split: bool)
        requires
            old(self).wf(),
            dir is U || dir is D,
            total_bytes(old(self)@.rows) + leading_ws(old(self).cur_row()) <= usize::MAX,
        ensures
            final(self).wf(),
            final(self)@ == newline_spec(old(self)@, dir, split),
    {
        let ghost v0 = self@;
        let ghost b0 = self.buf@;
        proof {
            lemma_leading_ws_character(v0.rows[v0.row]);
            lemma_total_bytes_nonneg(v0.rows);
            lemma_row_bytes_le_total(v0.rows, v0.row);
            lemma_bytes_of_nonneg(v0.rows[v0.row]);
        }
        let indent = self.leading_whitespaces(self.row);
        let leading = spaces_vec(indent);
        let h = self.buf.len();
        proof {
            lemma_bytes_of_spaces(indent as int);
            assert(self.row < h);
        }
        if matches!(dir, Dir::D) {
            if split {
                let tail = copy_without_range(&self.buf[self.row], 0, self.chr);
                let new_below = concat_rows(&leading, &tail);
                let len = self.buf[self.row].len();
                let trunc = copy_without_range(&self.buf[self.row], self.chr, len);
                self.buf.set(self.row, trunc);
                let ghost b1 = self.buf@;
                proof {
                    lemma_rows_view_update(b0, v0.row, self.buf@[v0.row]);
                }
                self.buf.insert(self.row + 1, new_below);
                proof {
                    lemma_rows_view_insert(b1, v0.row + 1, self.buf@[v0.row + 1]);
                }
                self.row = self.row + 1;
                self.chr = indent;
                self.byte = indent;
                proof {
                    let cur = v0.rows[v0.row];
                    assert(cur.take(0) =~= Seq::<char>::empty());
                    assert(tail@ =~= cur.skip(v0.chr));
                    assert(cur.skip(cur.len() as int) =~= Seq::<char>::empty());
                    assert(trunc@ =~= cur.take(v0.chr));
                    assert(self@.rows =~= v0.rows.update(v0.row, cur.take(v0.chr)).insert(
                        v0.row + 1,
                        spaces(indent as int) + cur.skip(v0.chr),
                    ));
                    let nr = spaces(indent as int) + cur.skip(v0.chr);
                    assert(nr.take(indent as int) =~= spaces(indent as int));
                    lemma_total_bytes_update(v0.rows, v0.row, cur.take(v0.chr));
                    lemma_total_bytes_insert(
                        v0.rows.update(v0.row, cur.take(v0.chr)),
                        v0.row + 1,
                        nr,
                    );
                    lemma_bytes_of_add(spaces(indent as int), cur.skip(v0.chr));
                    lemma_bytes_of_parts(cur, v0.chr, v0.chr);
                    assert(cur.subrange(v0.chr, v0.chr) =~= Seq::<char>::empty());
                    assert(bytes_of(Seq::<char>::empty()) == 0);
                }
            } else {
                self.buf.insert(self.row + 1, leading);
                proof {
                    lemma_rows_view_insert(b0, v0.row + 1, self.buf@[v0.row + 1]);
                }
                self.row = self.row + 1;
                self.chr = indent;
                self.byte = indent;
                proof {
                    assert(self@.rows =~= v0.rows.insert(v0.row + 1, spaces(indent as int)));
                    assert(spaces(indent as int).take(indent as int) =~= spaces(indent as int));
                    lemma_total_bytes_insert(v0.rows, v0.row + 1, spaces(indent as int));
                }
            }
        } else {
            self.buf.insert(self.row, leading);
            proof {
                lemma_rows_view_insert(b0, v0.row, self.buf@[v0.row]);
            }
            self.chr = indent;
            self.byte = indent;
            proof {
                assert(self@.rows =~= v0.rows.insert(v0.row, spaces(indent as int)));
                assert(spaces(indent as int).take(indent as int) =~= spaces(indent as int));
                lemma_total_bytes_insert(v0.rows, v0.row, spaces(indent as int));
            }
        }
    }

    /// Dispatch a counted, directed motion to the cut or move machinery.
    fn apply_w_dir(&mut self, verb: Action, by: usize, dir: Dir, mode: Mode)
        requires
            old(self).wf(),
        ensures
            final(self).wf(),
            final(self)@ == if verb is Cut {
                match dir {
                    Dir::L => cut_left_spec(old(self)@, by as int, mode),
                    Dir::R => cut_right_spec(old(self)@, by as int),
                    Dir::D => delete_lines_spec(old(self)@, by as int),
                    Dir::U => old(self)@,
                }
            } else {
                move_spec(old(self)@, by as int, dir)
            },
    {
        match verb {
            Action::Cut => self.remove_at_cursor(by, dir, mode),
            Action::Move => self.move_cursor(by, dir),
        }
    }

    /// Dispatch a destination motion: cutting to a destination deletes the
    /// line or the rest of it; moving jumps to the destination.
    fn apply_no_dir(&mut self, verb: Action, dest: Dest, mode: Mode)
        requires
            old(self).wf(),
            verb is Move ==> !(dest is Line),
        ensures
            final(self).wf(),
            final(self)@ == if verb is Cut {
                match dest {
                    Dest::TxtStart => delete_lines_spec(old(self)@, 1),
                    Dest::Line => delete_lines_spec(old(self)@, 1),
                    Dest::Endl => cut_right_spec(old(self)@, usize::MAX as int),
                }
            } else {
                match dest {
                    Dest::Endl => endl_spec(old(self)@),
                    Dest::TxtStart => txtstart_spec(old(self)@),
                    Dest::Line => old(self)@,
                }
            },
    {
        let ghost v0 = self@;
        match verb {
            Action::Cut => match dest {
                Dest::TxtStart | Dest::Line => self.delete_lines_down(1),
                Dest::Endl => self.remove_at_cursor(usize::MAX, Dir::R, mode),
            },
            Action::Move => match dest {
                Dest::Endl => {
                    let len = self.char_len();
                    self.chr = len;
                    proof {
                        lemma_row_bytes_le_total(v0.rows, v0.row);
                        assert(self.cur_row().take(self.cur_row().len() as int) =~= self.cur_row());
                    }
                    self.byte = self.byte_len();
                },
                Dest::TxtStart => {
                    let ind = self.leading_whitespaces(self.row);
                    self.chr = ind;
                    proof {
                        lemma_leading_ws_character(v0.rows[v0.row]);
                        lemma_row_bytes_le_total(v0.rows, v0.row);
                        lemma_bytes_of_take_monotonic(
                            self.cur_row(),
                            self@.chr,
                            self.cur_row().len() as int,
                        );
                        assert(self.cur_row().take(self.cur_row().len() as int) =~= self.cur_row());
                    }
                    self.byte = prefix_bytes(&self.buf[self.row], self.chr);
                },
                Dest::Line => {
                    unreached::<()>();
                },
            },
        }
    }

    /// Apply a completed motion under the given mode. In Edit mode the
    /// cursor is afterwards clamped so that it never rests past the last
    /// character of a non-empty row.
    pub fn apply_motion(&mut self, m: Motion, mode: Mode)
        requires
            old(self).wf(),
            valid_motion(m),
        ensures
            final(self).wf(),
            final(self)@ == apply_motion_spec(old(self)@, m, mode),
            mode is Edit ==> final(self)@.rows[final(self)@.row].len() == 0 || final(self)@.chr
                < final(self)@.rows[final(self)@.row].len(),
    {
        let verb = match m.buf[0] {
            Cmd::Verb(v) => v,
            _ => unreached(),
        };
        match m.buf[1] {
            Cmd::By(n) => {
                let d = m.buf[2].unwrap_dir();
                self.apply_w_dir(verb, n, d, mode);
            },
            Cmd::ToDest(dest) => {
                self.apply_no_dir(verb, dest, mode);
            },
            _ => {
                unreached::<()>();
            },
        }
        if matches!(mode, Mode::Edit) {
            self.jump_back_if_end();
        }
    }

    /// Count of leading whitespace characters of row `n`.
    fn leading_whitespaces(&self, row: usize) -> (r: usize)
        requires
            row < self@.rows.len(),
        ensures
            r == leading_ws(self@.rows[row as int]),
    {
        let s = &self.buf[row];
        let ghost sq = s@;
        let mut i: usize = 0;
        while i < s.len() && s[i].is_whitespace()
            invariant
                i <= sq.len(),
                s@ == sq,
                forall|j: int| 0 <= j < i ==> white_of(sq[j]),
            decreases sq.len() - i,
        {
            i = i + 1;
        }
        proof {
            lemma_leading_ws_character(sq);
        }
        i
    }
}

impl Clone for Buffer {
    /// A deep copy with the same rows and cursor: the snapshot operation.
    fn clone(&self) -> (r: Self)
        ensures
            r@ == self@,
    {
        let mut rows: Vec<Vec<char>> = Vec::new();
        let mut i: usize = 0;
        while i < self.buf.len()
            invariant
                i <= self.buf@.len(),
                rows_view(rows@) =~= rows_view(self.buf@).take(i as int),
            decreases self.buf@.len() - i,
        {
            let ghost prev = rows@;
            let row_copy = crate::chars::copy_row(&self.buf[i]);
            let ghost c = row_copy@;
            rows.push(row_copy);
            proof {
                assert(rows_view(prev).len() == i);
                assert(prev.len() == i);
                assert(rows@[i as int]@ == c);
                assert(rows@[i as int]@ == self.buf@[i as int]@);
                assert forall|j: int| 0 <= j < i + 1 implies rows_view(rows@)[j] == rows_view(
                    self.buf@,
                ).take(i + 1)[j] by {
                    if j < i {
                        assert(rows@[j] == prev[j]);
                        assert(rows_view(prev)[j] == rows_view(self.buf@).take(i as int)[j]);
                    }
                }
                assert(rows_view(rows@) =~= rows_view(self.buf@).take(i + 1));
            }
            i = i + 1;
        }
        let r = Buffer { buf: rows, row: self.row, byte: self.byte, chr: self.chr };
        proof {
            assert(rows_view(self.buf@).take(self.buf@.len() as int) =~= rows_view(self.buf@));
            assert(r@.rows =~= self@.rows);
        }
        r
    }
}

/// Boundary validity: in a well-formed buffer state the cursor's byte
/// offset is a character boundary of its row's text. Every buffer
/// operation ends in a well-formed state, so this holds after any sequence
/// of motions.
pub proof fn lemma_cursor_byte_is_boundary(v: BufView)
    requires
        view_wf(v),
    ensures
        crate::chars::is_boundary(v.rows[v.row], v.byte),
{
    assert(0 <= v.chr <= v.rows[v.row].len() && v.byte == bytes_of(v.rows[v.row].take(v.chr)));
}

/// Row-count floor: deleting any number of lines leaves at least one row;
/// with well-formedness preserved by every operation, the row count never
/// reaches zero under any sequence of line deletions.
pub proof fn lemma_row_count_floor(v: BufView, n: int)
    requires
        view_wf(v),
        0 <= n,
    ensures
        delete_lines_spec(v, n).rows.len() >= 1,
{
    if n != 0 {
        lemma_delete_rows_wf(v.rows, v.row, n);
    }
}

/// Move round-trip, rightwards first: moving right by `n` and then left by
/// `n` from a position with `n` characters of room to the right returns
/// the cursor to its original row, character index and byte offset, in
/// either mode.
pub proof fn lemma_move_round_trip(v: BufView, n: usize, mode: Mode)
    requires
        view_wf(v),
        v.chr + n < v.rows[v.row].len(),
    ensures
        ({
            let right = (Motion { buf: [Cmd::Verb(Action::Move), Cmd::By(n), Cmd::ToDir(Dir::R)] });
            let left = (Motion { buf: [Cmd::Verb(Action::Move), Cmd::By(n), Cmd::ToDir(Dir::L)] });
            let w = apply_motion_spec(apply_motion_spec(v, right, mode), left, mode);
            w.rows == v.rows && w.row == v.row && w.chr == v.chr && w.byte == v.byte
        }),
{
}

/// Move round-trip, leftwards first: moving left by `n` and then right by
/// `n` from an interior position at least `n` characters into its row
/// returns the cursor to its original place, in either mode.
pub proof fn lemma_move_round_trip_left_first(v: BufView, n: usize, mode: Mode)
    requires
        view_wf(v),
        n <= v.chr,
        v.chr < v.rows[v.row].len(),
    ensures
        ({
            let left = (Motion { buf: [Cmd::Verb(Action::Move), Cmd::By(n), Cmd::ToDir(Dir::L)] });
            let right = (Motion { buf: [Cmd::Verb(Action::Move), Cmd::By(n), Cmd::ToDir(Dir::R)] });
            let w = apply_motion_spec(apply_motion_spec(v, left, mode), right, mode);
            w.rows == v.rows && w.row == v.row && w.chr == v.chr && w.byte == v.byte
        }),
{
}

/// The grammar never hands the buffer a malformed motion: every motion it
/// emits from a pending accumulator is one `apply_motion` accepts.
pub proof fn lemma_emitted_motion_is_valid(m: Motion, c: Option<char>)
    requires
        crate::motion::pending(m),
    ensures
        crate::motion::push_spec(m, c).1 is Some ==> valid_motion(
            crate::motion::push_spec(m, c).1.unwrap(),
        ),
{
}

/// Neither does the input handler: every motion a handled event produces
/// is one `apply_motion` accepts.
pub proof fn lemma_handled_motion_is_valid(
    h: crate::handler::HandlerView,
    ev: crate::handler::InputEvent,
    mb: Seq<char>,
)
    requires
        crate::motion::pending(h.motion),
    ensures
        crate::handler::handle_spec(h, ev, mb).2 is Motion ==> valid_motion(
            crate::handler::handle_spec(h, ev, mb).2->Motion_0,
        ),
{
    if crate::handler::handle_spec(h, ev, mb).2 is Motion {
        if ev is TextInput {
            lemma_emitted_motion_is_valid(
                h.motion,
                if ev->TextInput_0@.len() > 0 {
                    Option::Some(ev->TextInput_0@[0])
                } else {
                    Option::None
                },
            );
        }
    }
}

/// Cut/insert inverse: inserting non-empty text at the cursor and at once
/// cutting the same number of characters leftwards restores the row
/// content and the cursor, whatever the mode. (Inserting nothing at column
/// zero of a later row is excluded: cutting zero characters there joins
/// lines in Insert mode instead.)
pub proof fn lemma_insert_cut_inverse(v: BufView, t: Seq<char>, mode: Mode)
    requires
        view_wf(v),
        t.len() >= 1,
    ensures
        ({
            let w = insert_spec(v, t);
            let u = cut_left_spec(w, t.len() as int, mode);
            u.rows == v.rows && u.row == v.row && u.chr == v.chr && u.byte == v.byte
        }),
{
    let cur = v.rows[v.row];
    let nr = cur.take(v.chr) + t + cur.skip(v.chr);
    let w = insert_spec(v, t);
    assert(w.rows[v.row] == nr);
    assert(nr.take(v.chr) =~= cur.take(v.chr));
    assert(nr.skip(v.chr + t.len()) =~= cur.skip(v.chr));
    let u = cut_left_spec(w, t.len() as int, mode);
    assert(u.rows[v.row] =~= cur.take(v.chr) + cur.skip(v.chr));
    assert(cur.take(v.chr) + cur.skip(v.chr) =~= cur);
    assert(u.rows =~= v.rows);
}

} // verus!
