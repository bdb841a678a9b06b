//! The flat document buffer: one character sequence holding the whole
//! text with embedded newlines, a single linear cursor (a character
//! index), and a token list used to find word boundaries.

use vstd::prelude::*;

use crate::buffer::lemma_bytes_of_parts;
use crate::chars::{bytes_of, lemma_bytes_of_nonneg};
use crate::handler::Mode;
use crate::lexer::{tokenize, tokens_of};
use crate::motion::{Action, Cmd, Dir, Motion};
use crate::token::{Token, TokenKind};
use vstd::pervasive::VecAdditionalExecFns;

verus! {

/// Number of newline characters among the first `upto` characters.
pub open spec fn count_nl(s: Seq<char>, upto: int) -> int
    decreases upto,
{
    if upto <= 0 {
        0
    } else {
        count_nl(s, upto - 1) + (if s[upto - 1] == '\n' {
            1int
        } else {
            0int
        })
    }
}

/// Column of the cursor after processing the first `upto` characters:
/// distance since the last newline.
pub open spec fn col_after(s: Seq<char>, upto: int) -> int
    decreases upto,
{
    if upto <= 0 {
        0
    } else if s[upto - 1] == '\n' {
        0
    } else {
        col_after(s, upto - 1) + 1
    }
}

/// Position of the first newline at or after `from`, or the text's end.
pub open spec fn next_nl(s: Seq<char>, from: int) -> int
    decreases s.len() - from,
{
    if from < 0 || from >= s.len() {
        s.len() as int
    } else if s[from] == '\n' {
        from
    } else {
        next_nl(s, from + 1)
    }
}

pub proof fn lemma_next_nl_character(s: Seq<char>, from: int)
    requires
        0 <= from <= s.len(),
    ensures
        from <= next_nl(s, from) <= s.len(),
        forall|m: int| from <= m < next_nl(s, from) ==> s[m] != '\n',
        next_nl(s, from) < s.len() ==> s[next_nl(s, from)] == '\n',
    decreases s.len() - from,
{
    if from < s.len() && s[from] != '\n' {
        lemma_next_nl_character(s, from + 1);
    }
}

/// Number of newline-separated lines from position `from` on; a trailing
/// newline does not open a further line.
pub open spec fn lines_from(s: Seq<char>, from: int) -> int
    decreases s.len() - from + 1,
    via lines_from_dec
{
    if from < 0 || from >= s.len() {
        0
    } else {
        1 + lines_from(s, next_nl(s, from) + 1)
    }
}

#[via_fn]
proof fn lines_from_dec(s: Seq<char>, from: int) {
    if 0 <= from < s.len() {
        lemma_next_nl_character(s, from);
    }
}

/// Line count of the whole text.
pub open spec fn height_of(s: Seq<char>) -> int {
    lines_from(s, 0)
}

/// Start position of line `n`: just past the `n`-th newline.
pub open spec fn line_start(s: Seq<char>, n: int) -> int
    decreases n,
    via line_start_dec
{
    if n <= 0 {
        0
    } else {
        next_nl(s, line_start(s, n - 1)) + 1
    }
}

#[via_fn]
proof fn line_start_dec(s: Seq<char>, n: int) {
}

/// The text of line `n`, the empty sequence if there is no such line.
pub open spec fn line_at(s: Seq<char>, n: int) -> Seq<char> {
    let st = line_start(s, n);
    if 0 <= st < s.len() {
        s.subrange(st, next_nl(s, st))
    } else {
        Seq::<char>::empty()
    }
}

/// End of the cursor's row: the last character position of the non-newline
/// run at the cursor, or the cursor itself on a newline or past the end.
pub open spec fn eor_spec(s: Seq<char>, c: int) -> int {
    if c >= s.len() || s[c] == '\n' {
        c
    } else {
        next_nl(s, c) - 1
    }
}

/// Cursor movement in the flat document: left clamps at the text start,
/// right is bounded by the end of the cursor's row.
pub open spec fn doc_move_spec(s: Seq<char>, cur: int, by: int, dir: Dir) -> int {
    match dir {
        Dir::L => if cur >= by {
            cur - by
        } else {
            0
        },
        Dir::R => {
            let rb = eor_spec(s, cur);
            if cur + by <= rb {
                cur + by
            } else {
                rb
            }
        },
        _ => cur,
    }
}

/// Removing the character just before the cursor (the first character at
/// the very start); the cursor slides one left.
pub open spec fn doc_remove_spec(s: Seq<char>, cur: int) -> (Seq<char>, int) {
    let idx = if cur > 0 {
        cur - 1
    } else {
        0
    };
    let s2 = if s.len() > 0 {
        s.remove(idx)
    } else {
        s
    };
    (s2, if cur > 0 {
        cur - 1
    } else {
        0
    })
}

/// Cutting `by` characters: rightwards each step first advances one, then
/// removes; the other directions remove before the cursor.
pub open spec fn doc_cut_spec(s: Seq<char>, cur: int, by: int, dir: Dir) -> (Seq<char>, int)
    decreases by,
{
    if by <= 0 {
        (s, cur)
    } else {
        let c1 = if dir is R {
            doc_move_spec(s, cur, 1, Dir::R)
        } else {
            cur
        };
        let r = doc_remove_spec(s, c1);
        doc_cut_spec(r.0, r.1, by - 1, dir)
    }
}

/// The Edit-mode clamp for the flat document: a cursor resting on a
/// newline or past the end, with a row character before it, steps back
/// onto that character.
pub open spec fn doc_clamp_spec(s: Seq<char>, cur: int) -> int {
    if (cur >= s.len() || s[cur] == '\n') && cur > 0 && s[cur - 1] != '\n' {
        cur - 1
    } else {
        cur
    }
}

/// Effect of a motion on the flat document. Destination motions are not
/// wired up in this buffer form and leave it unchanged; in Edit mode the
/// cursor is re-clamped afterwards.
pub open spec fn doc_apply_spec(s: Seq<char>, cur: int, m: Motion, mode: Mode) -> (Seq<char>, int) {
    let verb = m.buf[0]->Verb_0;
    let r = if m.buf[1] is By {
        let n = m.buf[1]->By_0 as int;
        let dir = m.buf[2]->ToDir_0;
        if verb is Cut {
            doc_cut_spec(s, cur, n, dir)
        } else {
            (s, doc_move_spec(s, cur, n, dir))
        }
    } else {
        (s, cur)
    };
    if mode is Edit {
        (r.0, doc_clamp_spec(r.0, r.1))
    } else {
        r
    }
}

/// Smallest position at or after `j` holding character `ch`, or the
/// text's end.
pub open spec fn find_char_from(s: Seq<char>, ch: char, j: int) -> int
    decreases s.len() - j,
{
    if j < 0 || j >= s.len() {
        s.len() as int
    } else if s[j] == ch {
        j
    } else {
        find_char_from(s, ch, j + 1)
    }
}

pub proof fn lemma_find_char_character(s: Seq<char>, ch: char, j: int)
    requires
        0 <= j <= s.len(),
    ensures
        j <= find_char_from(s, ch, j) <= s.len(),
        forall|m: int| j <= m < find_char_from(s, ch, j) ==> s[m] != ch,
        find_char_from(s, ch, j) < s.len() ==> s[find_char_from(s, ch, j)] == ch,
    decreases s.len() - j,
{
    if j < s.len() && s[j] != ch {
        lemma_find_char_character(s, ch, j + 1);
    }
}

/// Largest position strictly before `j` holding character `ch`, or `-1`.
pub open spec fn find_char_back(s: Seq<char>, ch: char, j: int) -> int
    decreases j,
{
    if j <= 0 {
        -1
    } else if j - 1 < s.len() && s[j - 1] == ch {
        j - 1
    } else {
        find_char_back(s, ch, j - 1)
    }
}

/// Seeking forward to a literal character: the first strictly later
/// occurrence, or no movement.
pub open spec fn seek_next_char_spec(s: Seq<char>, cur: int, ch: char) -> int {
    let f = find_char_from(s, ch, cur + 1);
    if f < s.len() {
        f
    } else {
        cur
    }
}

/// Seeking backward to a literal character: the last strictly earlier
/// occurrence, or no movement.
pub open spec fn seek_prev_char_spec(s: Seq<char>, cur: int, ch: char) -> int {
    let b = find_char_back(s, ch, cur);
    if b >= 0 {
        b
    } else {
        cur
    }
}

pub proof fn lemma_find_char_back_character(s: Seq<char>, ch: char, j: int)
    requires
        0 <= j <= s.len(),
    ensures
        -1 <= find_char_back(s, ch, j) < j,
        find_char_back(s, ch, j) >= 0 ==> s[find_char_back(s, ch, j)] == ch,
        forall|m: int| find_char_back(s, ch, j) < m < j ==> s[m] != ch,
    decreases j,
{
    if j > 0 && !(j - 1 < s.len() && s[j - 1] == ch) {
        lemma_find_char_back_character(s, ch, j - 1);
    }
}

/// Every token of a text lies within it, at or after the scan position.
pub proof fn lemma_tokens_of_bounds(s: Seq<char>, i: int)
    requires
        0 <= i,
        s.len() <= usize::MAX,
    ensures
        forall|k: int|
            0 <= k < tokens_of(s, i).len() ==> i <= (#[trigger] tokens_of(s, i)[k]).from
                && tokens_of(s, i)[k].from <= tokens_of(s, i)[k].to && tokens_of(s, i)[k].to
                < s.len(),
    decreases s.len() - i,
{
    if i < s.len() {
        let e = crate::lexer::token_end(s, i);
        crate::lexer::lemma_run_end_character(s, crate::token::kind_of(s[i]), i + 1);
        lemma_tokens_of_bounds(s, e);
        assert forall|k: int| 0 <= k < tokens_of(s, i).len() implies i <= (#[trigger] tokens_of(
            s,
            i,
        )[k]).from && tokens_of(s, i)[k].from <= tokens_of(s, i)[k].to && tokens_of(s, i)[k].to
            < s.len() by {
            if k > 0 {
                assert(tokens_of(s, i)[k] == tokens_of(s, e)[k - 1]);
            }
        }
    }
}

/// Start of the first `Word` token beginning strictly after `cur`, or
/// `-1` when none follows.
pub open spec fn first_word_after(ts: Seq<Token>, cur: int) -> int
    decreases ts.len(),
{
    if ts.len() == 0 {
        -1
    } else if ts[0].kind is Word && ts[0].from > cur {
        ts[0].from as int
    } else {
        first_word_after(ts.drop_first(), cur)
    }
}

/// Seeking forward to the next word start, or no movement.
pub open spec fn seek_next_word_spec(ts: Seq<Token>, cur: int) -> int {
    let f = first_word_after(ts, cur);
    if f >= 0 {
        f
    } else {
        cur
    }
}

pub proof fn lemma_lines_from_bound(s: Seq<char>, from: int)
    requires
        0 <= from,
    ensures
        lines_from(s, from) >= 0,
        lines_from(s, from) <= (if s.len() - from >= 0 { s.len() - from } else { 0 }),
    decreases s.len() - from + 1,
{
    if from < s.len() {
        lemma_next_nl_character(s, from);
        lemma_lines_from_bound(s, next_nl(s, from) + 1);
    }
}

/// Once the scan has run past the end of the text, every later line start
/// is past it as well.
pub proof fn lemma_line_start_stuck(s: Seq<char>, a: int, b: int)
    requires
        0 <= a <= b,
        line_start(s, a) == s.len() + 1,
    ensures
        line_start(s, b) == s.len() + 1,
    decreases b - a,
{
    if a < b {
        lemma_line_start_stuck(s, a + 1, b);
    }
}

/// Find the first newline at or after `from`.
fn find_nl(v: &Vec<char>, from: usize) -> (r: usize)
    requires
        from <= v@.len(),
    ensures
        r == next_nl(v@, from as int),
{
    let ghost s = v@;
    let mut j = from;
    while j < v.len() && v[j] != '\n'
        invariant
            from <= j <= s.len(),
            v@ == s,
            forall|m: int| from <= m < j ==> s[m] != '\n',
        decreases s.len() - j,
    {
        j = j + 1;
    }
    proof {
        lemma_next_nl_character(s, from as int);
        let e = next_nl(s, from as int);
        if e < j {
            assert(s[e] != '\n');
        } else if e > j {
            assert(s[j as int] != '\n');
        }
    }
    j
}

/// The seek target: a literal character or the next word boundary.
pub enum Seek {
    Char(char),
    Word,
}

/// A seek capability the buffer does not provide.
#[derive(Debug, Clone, Copy, PartialEq, Eq, Structural)]
pub enum SeekError {
    Unsupported,
}

/// Mathematical state of the flat document.
pub ghost struct DocView {
    pub content: Seq<char>,
    pub cursor: int,
    pub tokens: Seq<Token>,
}

/// The flat document buffer.
pub struct Buffer {
    content: Vec<char>,
    cursor: usize,
    token_list: Vec<Token>,
}

impl View for Buffer {
    type V = DocView;

    closed spec fn view(&self) -> DocView {
        DocView {
            content: self.content@,
            cursor: self.cursor as int,
            tokens: self.token_list@,
        }
    }
}

impl Buffer {
    /// Document invariant: the cursor is within the text, the text fits
    /// the address space in bytes, and the token list is the
    /// classification of the current text.
    pub open spec fn wf(self) -> bool {
        &&& 0 <= self@.cursor <= self@.content.len()
        &&& bytes_of(self@.content) <= usize::MAX
        &&& self@.tokens == tokens_of(self@.content, 0)
    }

    /// A document over the given text, cursor at the start.
    pub fn new(s: &Vec<char>) -> (b: Buffer)
        requires
            bytes_of(s@) <= usize::MAX,
        ensures
            b.wf(),
            b@.content == s@,
            b@.cursor == 0,
    {
        let content = crate::chars::copy_row(s);
        let token_list = tokenize(&content);
        Buffer { content, cursor: 0, token_list }
    }

    /// The text.
    pub fn content(&self) -> (r: &Vec<char>)
        ensures
            r@ == self@.content,
    {
        &self.content
    }

    /// The cursor's character position.
    pub fn cursor(&self) -> (r: usize)
        ensures
            r == self@.cursor,
    {
        self.cursor
    }

    /// Place the cursor at an absolute character position.
    pub fn set_cursor(&mut self, n: usize)
        requires
            old(self).wf(),
            n <= old(self)@.content.len(),
        ensures
            final(self).wf(),
            final(self)@.content == old(self)@.content,
            final(self)@.cursor == n,
    {
        self.cursor = n;
    }

    /// Whether the text is empty.
    pub fn is_empty(&self) -> (r: bool)
        ensures
            r == (self@.content.len() == 0),
    {
        self.content.len() == 0
    }

    /// Number of newlines in the whole text.
    pub fn line_count(&self) -> (r: usize)
        ensures
            r == count_nl(self@.content, self@.content.len() as int),
    {
        let ghost s = self@.content;
        let mut cnt: usize = 0;
        let mut i: usize = 0;
        while i < self.content.len()
            invariant
                i <= s.len(),
                self@.content == s,
                cnt == count_nl(s, i as int),
                cnt <= i,
            decreases s.len() - i,
        {
            if self.content[i] == '\n' {
                cnt = cnt + 1;
            }
            i = i + 1;
        }
        cnt
    }

    /// The row the cursor is on: newlines strictly before the cursor, so
    /// a cursor resting on a newline still reports the row that newline
    /// ends.
    pub fn row(&self) -> (r: usize)
        requires
            self.wf(),
        ensures
            r == count_nl(self@.content, self@.cursor),
    {
        let ghost s = self@.content;
        let upto = self.cursor;
        let mut cnt: usize = 0;
        let mut i: usize = 0;
        while i < upto
            invariant
                i <= upto <= s.len(),
                self@.content == s,
                cnt == count_nl(s, i as int),
                cnt <= i,
            decreases upto - i,
        {
            if self.content[i] == '\n' {
                cnt = cnt + 1;
            }
            i = i + 1;
        }
        cnt
    }

    /// The cursor's column: its distance into its row, counting the
    /// character it rests on.
    pub fn col(&self) -> (r: usize)
        requires
            self.wf(),
        ensures
            r == col_after(
                self@.content,
                if self@.cursor + 1 <= self@.content.len() {
                    self@.cursor + 1
                } else {
                    self@.content.len() as int
                },
            ),
    {
        let ghost s = self@.content;
        let len = self.content.len();
        let upto = if self.cursor < len {
            self.cursor + 1
        } else {
            len
        };
        let mut col: usize = 0;
        let mut i: usize = 0;
        while i < upto
            invariant
                i <= upto <= s.len(),
                self@.content == s,
                col == col_after(s, i as int),
                col <= i,
            decreases upto - i,
        {
            if self.content[i] == '\n' {
                col = 0;
            } else {
                col = col + 1;
            }
            i = i + 1;
        }
        col
    }

    /// Number of newline-separated lines, a trailing newline opening no
    /// further line.
    pub fn height(&self) -> (r: usize)
        requires
            self.wf(),
        ensures
            r == height_of(self@.content),
    {
        let ghost s = self@.content;
        let len = self.content.len();
        let mut h: usize = 0;
        let mut start: usize = 0;
        proof {
            lemma_lines_from_bound(s, 0);
        }
        while start < len
            invariant
                start <= len,
                len == s.len(),
                self@.content == s,
                h + lines_from(s, start as int) == lines_from(s, 0),
                lines_from(s, 0) <= s.len(),
            decreases len - start,
        {
            proof {
                lemma_next_nl_character(s, start as int);
                lemma_lines_from_bound(s, next_nl(s, start as int) + 1);
                lemma_lines_from_bound(s, start as int);
            }
            let e = find_nl(&self.content, start);
            h = h + 1;
            if e >= len {
                return h;
            }
            start = e + 1;
        }
        h
    }

    /// The characters of line `n`, empty if there is no such line.
    pub fn nth(&self, n: usize) -> (r: Vec<char>)
        requires
            self.wf(),
        ensures
            r@ == line_at(self@.content, n as int),
    {
        let ghost s = self@.content;
        let len = self.content.len();
        let mut start: usize = 0;
        let mut k: usize = 0;
        while k < n
            invariant
                k <= n,
                len == s.len(),
                self@.content == s,
                start as int == line_start(s, k as int),
                start <= len,
            decreases n - k,
        {
            let e = find_nl(&self.content, start);
            if e >= len {
                proof {
                    lemma_next_nl_character(s, start as int);
                    assert(next_nl(s, start as int) == s.len());
                    assert(line_start(s, k + 1) == next_nl(s, line_start(s, k as int)) + 1);
                    assert(line_start(s, k + 1) == s.len() + 1);
                    lemma_line_start_stuck(s, k + 1, n as int);
                }
                return Vec::new();
            }
            start = e + 1;
            k = k + 1;
        }
        if start >= len {
            return Vec::new();
        }
        let e = find_nl(&self.content, start);
        let mut out: Vec<char> = Vec::new();
        let mut i = start;
        proof {
            lemma_next_nl_character(s, start as int);
        }
        while i < e
            invariant
                start <= i <= e <= s.len(),
                self@.content == s,
                out@ =~= s.subrange(start as int, i as int),
            decreases e - i,
        {
            out.push(self.content[i]);
            proof {
                assert(out@ =~= s.subrange(start as int, i + 1));
            }
            i = i + 1;
        }
        proof {
            assert(out@ =~= s.subrange(start as int, next_nl(s, start as int)));
        }
        out
    }

    /// Rebuild the token list from the current text.
    fn retokenize(&mut self)
        requires
            bytes_of(old(self)@.content) <= usize::MAX,
        ensures
            final(self)@.content == old(self)@.content,
            final(self)@.cursor == old(self)@.cursor,
            final(self)@.tokens == tokens_of(old(self)@.content, 0),
    {
        self.token_list = tokenize(&self.content);
    }

    /// Splice text in at the cursor; the cursor advances past it and the
    /// token list is rebuilt.
    pub fn insert_at_cursor(&mut self, s: &Vec<char>)
        requires
            old(self).wf(),
            bytes_of(old(self)@.content) + bytes_of(s@) <= usize::MAX,
        ensures
            final(self).wf(),
            final(self)@.content == old(self)@.content.take(old(self)@.cursor) + s@ + old(
                self,
            )@.content.skip(old(self)@.cursor),
            final(self)@.cursor == old(self)@.cursor + s@.len(),
    {
        let ghost v0 = self@;
        proof {
            lemma_bytes_of_nonneg(s@);
            lemma_bytes_of_nonneg(v0.content);
        }
        let new_content = crate::chars::copy_with_insert(&self.content, self.cursor, s);
        proof {
            lemma_bytes_of_parts(v0.content, v0.cursor, v0.cursor);
            assert(v0.content.subrange(v0.cursor, v0.cursor) =~= Seq::<char>::empty());
            assert(bytes_of(Seq::<char>::empty()) == 0);
            crate::chars::lemma_bytes_of_add(v0.content.take(v0.cursor), s@);
            crate::chars::lemma_bytes_of_add(
                v0.content.take(v0.cursor) + s@,
                v0.content.skip(v0.cursor),
            );
        }
        self.content = new_content;
        self.cursor = self.cursor + s.len();
        self.retokenize();
    }

    /// End of the cursor's row.
    fn end_of_row(&self) -> (r: usize)
        requires
            0 <= self@.cursor <= self@.content.len(),
        ensures
            r == eor_spec(self@.content, self@.cursor),
            self@.cursor <= r <= self@.content.len(),
    {
        let len = self.content.len();
        if self.cursor >= len || self.content[self.cursor] == '\n' {
            self.cursor
        } else {
            let e = find_nl(&self.content, self.cursor);
            proof {
                lemma_next_nl_character(self@.content, self@.cursor);
            }
            e - 1
        }
    }

    /// Reposition the cursor; leftwards clamps at the start of the text,
    /// rightwards at the end of the cursor's row.
    fn move_cursor(&mut self, by: usize, dir: Dir)
        requires
            0 <= old(self)@.cursor <= old(self)@.content.len(),
            dir is L || dir is R,
        ensures
            final(self)@.content == old(self)@.content,
            final(self)@.tokens == old(self)@.tokens,
            final(self)@.cursor == doc_move_spec(old(self)@.content, old(self)@.cursor, by as int, dir),
            0 <= final(self)@.cursor <= final(self)@.content.len(),
    {
        match dir {
            Dir::L => {
                if self.cursor >= by {
                    self.cursor = self.cursor - by;
                } else {
                    self.cursor = 0;
                }
            },
            _ => {
                let rb = self.end_of_row();
                if by <= rb - self.cursor {
                    self.cursor = self.cursor + by;
                } else {
                    self.cursor = rb;
                }
            },
        }
    }

    /// Remove the character just before the cursor (the first character
    /// at the very start); the cursor slides one left. The token list is
    /// left for the caller to rebuild.
    fn remove_at_cursor(&mut self)
        requires
            0 <= old(self)@.cursor <= old(self)@.content.len(),
        ensures
            (final(self)@.content, final(self)@.cursor) == doc_remove_spec(
                old(self)@.content,
                old(self)@.cursor,
            ),
            final(self)@.tokens == old(self)@.tokens,
            0 <= final(self)@.cursor <= final(self)@.content.len(),
            bytes_of(final(self)@.content) <= bytes_of(old(self)@.content),
    {
        let ghost s0 = self@.content;
        let len = self.content.len();
        if len > 0 {
            let idx = if self.cursor > 0 {
                self.cursor - 1
            } else {
                0
            };
            self.content.remove(idx);
            proof {
                assert(s0.remove(idx as int) =~= s0.take(idx as int) + s0.skip(idx + 1));
                lemma_bytes_of_parts(s0, idx as int, idx + 1);
                crate::chars::lemma_bytes_of_add(s0.take(idx as int), s0.skip(idx + 1));
                lemma_bytes_of_nonneg(s0.subrange(idx as int, idx + 1));
            }
        }
        self.cursor = if self.cursor > 0 {
            self.cursor - 1
        } else {
            0
        };
    }

    /// Cut `by` characters: rightwards each step advances one and removes
    /// the character passed over; otherwise each step removes the
    /// character before the cursor. The token list is rebuilt at the end.
    fn apply_w_dir(&mut self, verb: Action, by: usize, dir: Dir)
        requires
            old(self).wf(),
            verb is Move ==> (dir is L || dir is R),
        ensures
            final(self).wf(),
            (final(self)@.content, final(self)@.cursor) == if verb is Cut {
                doc_cut_spec(old(self)@.content, old(self)@.cursor, by as int, dir)
            } else {
                (
                    old(self)@.content,
                    doc_move_spec(old(self)@.content, old(self)@.cursor, by as int, dir),
                )
            },
    {
        let ghost s0 = self@.content;
        let ghost c0 = self@.cursor;
        match verb {
            Action::Cut => {
                let mut i: usize = 0;
                while i < by
                    invariant
                        i <= by,
                        0 <= self@.cursor <= self@.content.len(),
                        bytes_of(self@.content) <= bytes_of(s0),
                        bytes_of(s0) <= usize::MAX,
                        self@.tokens == old(self)@.tokens,
                        doc_cut_spec(s0, c0, by as int, dir) == doc_cut_spec(
                            self@.content,
                            self@.cursor,
                            by - i,
                            dir,
                        ),
                    decreases by - i,
                {
                    if matches!(dir, Dir::R) {
                        self.move_cursor(1, Dir::R);
                    }
                    self.remove_at_cursor();
                    i = i + 1;
                }
                proof {
                    lemma_bytes_of_nonneg(self@.content);
                }
                self.retokenize();
            },
            Action::Move => {
                self.move_cursor(by, dir);
            },
        }
    }

    /// The Edit-mode clamp: a cursor resting on a newline or past the
    /// text's end, with a row character just before it, steps back onto
    /// that character.
    fn jump_back_if_end(&mut self)
        requires
            0 <= old(self)@.cursor <= old(self)@.content.len(),
        ensures
            final(self)@.content == old(self)@.content,
            final(self)@.tokens == old(self)@.tokens,
            final(self)@.cursor == doc_clamp_spec(old(self)@.content, old(self)@.cursor),
            0 <= final(self)@.cursor <= final(self)@.content.len(),
    {
        let len = self.content.len();
        let past = self.cursor >= len || self.content[self.cursor] == '\n';
        if past && self.cursor > 0 && self.content[self.cursor - 1] != '\n' {
            self.cursor = self.cursor - 1;
        }
    }

    /// Apply a completed motion under the given mode. Destination motions
    /// are not wired up in this buffer form and leave it unchanged; a
    /// `Move` motion must be horizontal. In Edit mode the cursor is
    /// re-clamped afterwards.
    pub fn apply_motion(&mut self, m: Motion, mode: Mode)
        requires
            old(self).wf(),
            crate::motion::complete(m),
            (m.buf[0] == Cmd::Verb(Action::Move) && m.buf[1] is By) ==> (m.buf[2]->ToDir_0 is L
                || m.buf[2]->ToDir_0 is R),
        ensures
            final(self).wf(),
            (final(self)@.content, final(self)@.cursor) == doc_apply_spec(
                old(self)@.content,
                old(self)@.cursor,
                m,
                mode,
            ),
    {
        let verb = match m.buf[0] {
            Cmd::Verb(v) => v,
            _ => unreached(),
        };
        match m.buf[1] {
            Cmd::By(n) => {
                let d = m.buf[2].unwrap_dir();
                self.apply_w_dir(verb, n, d);
            },
            Cmd::ToDest(_dest) => {},
            _ => {
                unreached::<()>();
            },
        }
        if matches!(mode, Mode::Edit) {
            self.jump_back_if_end();
        }
    }

    /// First later occurrence of `c`, or the cursor itself.
    fn seek_next_char(&self, c: char) -> (r: usize)
        requires
            self.wf(),
        ensures
            r == seek_next_char_spec(self@.content, self@.cursor, c),
            r <= self@.content.len(),
    {
        let ghost s = self@.content;
        let len = self.content.len();
        if self.cursor >= len {
            return self.cursor;
        }
        let mut j = self.cursor + 1;
        while j < len && self.content[j] != c
            invariant
                self@.cursor + 1 <= j <= len,
                len == s.len(),
                self@.content == s,
                forall|m: int| self@.cursor + 1 <= m < j ==> s[m] != c,
            decreases len - j,
        {
            j = j + 1;
        }
        proof {
            lemma_find_char_character(s, c, self@.cursor + 1);
            let f = find_char_from(s, c, self@.cursor + 1);
            if f < j {
                assert(s[f] == c);
            } else if f > j {
                assert(s[j as int] == c);
            }
        }
        if j < len {
            j
        } else {
            self.cursor
        }
    }

    /// Last earlier occurrence of `c`, or the cursor itself.
    fn seek_prev_char(&self, c: char) -> (r: usize)
        requires
            self.wf(),
        ensures
            r == seek_prev_char_spec(self@.content, self@.cursor, c),
            r <= self@.content.len(),
    {
        let ghost s = self@.content;
        let mut j = self.cursor;
        while j > 0
            invariant
                0 <= j <= self@.cursor <= s.len(),
                self@.content == s,
                forall|m: int| j <= m < self@.cursor ==> s[m] != c,
            decreases j,
        {
            j = j - 1;
            if self.content[j] == c {
                proof {
                    lemma_find_char_back_character(s, c, self@.cursor);
                    let b = find_char_back(s, c, self@.cursor);
                    if b > j {
                        assert(s[b] != c);
                    } else if b < j {
                        assert(s[j as int] != c);
                    }
                }
                return j;
            }
        }
        proof {
            lemma_find_char_back_character(s, c, self@.cursor);
            let b = find_char_back(s, c, self@.cursor);
            if b >= 0 {
                assert(s[b] != c);
            }
        }
        self.cursor
    }

    /// Start of the next word after the cursor, or the cursor itself.
    fn seek_next_word(&self) -> (r: usize)
        requires
            self.wf(),
        ensures
            r == seek_next_word_spec(self@.tokens, self@.cursor),
            r <= self@.content.len(),
    {
        let ghost ts = self@.tokens;
        proof {
            assert(ts.skip(0) =~= ts);
        }
        let mut i: usize = 0;
        while i < self.token_list.len()
            invariant
                self.wf(),
                i <= ts.len(),
                self@.tokens == ts,
                first_word_after(ts, self@.cursor) == first_word_after(
                    ts.skip(i as int),
                    self@.cursor,
                ),
            decreases ts.len() - i,
        {
            let t = self.token_list[i];
            proof {
                lemma_bytes_of_nonneg(self@.content);
                lemma_tokens_of_bounds(self@.content, 0);
                assert(ts.skip(i as int)[0] == ts[i as int]);
                assert(ts.skip(i as int).drop_first() =~= ts.skip(i + 1));
            }
            if matches!(t.kind(), TokenKind::Word) && t.position().0 > self.cursor {
                return t.position().0;
            }
            i = i + 1;
        }
        proof {
            assert(ts.skip(ts.len() as int) =~= Seq::<Token>::empty());
        }
        self.cursor
    }

    /// Seek the cursor to a literal character or the next word start.
    /// Backward word-seek is not provided: it reports `Unsupported`
    /// distinctly from a seek that found nothing and stayed put.
    pub fn seek(&mut self, target: Seek, forwards: bool) -> (r: Result<(), SeekError>)
        requires
            old(self).wf(),
        ensures
            final(self).wf(),
            final(self)@.content == old(self)@.content,
            final(self)@.tokens == old(self)@.tokens,
            r is Ok <==> !(target is Word && !forwards),
            r is Err ==> final(self)@.cursor == old(self)@.cursor && r == Result::<(
            ), SeekError>::Err(SeekError::Unsupported),
            r is Ok ==> final(self)@.cursor == (match target {
                Seek::Char(ch) => if forwards {
                    seek_next_char_spec(old(self)@.content, old(self)@.cursor, ch)
                } else {
                    seek_prev_char_spec(old(self)@.content, old(self)@.cursor, ch)
                },
                Seek::Word => seek_next_word_spec(old(self)@.tokens, old(self)@.cursor),
            }),
    {
        match target {
            Seek::Char(c) => {
                let pos = if forwards {
                    self.seek_next_char(c)
                } else {
                    self.seek_prev_char(c)
                };
                self.cursor = pos;
                Ok(())
            },
            Seek::Word => {
                if forwards {
                    let pos = self.seek_next_word();
                    self.cursor = pos;
                    Ok(())
                } else {
                    Err(SeekError::Unsupported)
                }
            },
        }
    }
}

} // verus!
