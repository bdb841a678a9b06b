//! Lexer: splits a character sequence into maximal runs of one token
//! kind, reporting each run's kind and inclusive character range.

use vstd::prelude::*;

use crate::chars::{
    bytes_of, lemma_bytes_of_nonneg, lemma_bytes_of_take_monotonic, lemma_bytes_of_take_step,
    utf8_len,
};
use crate::token::{get_kind, kind_of, Token, TokenKind};

verus! {

/// End of the run of kind `k` beginning at `j`: the first position at or
/// after `j` whose character is of another kind, or the end of the text.
pub open spec fn run_end_from(s: Seq<char>, k: TokenKind, j: int) -> int
    decreases s.len() - j,
{
    if j < 0 || j >= s.len() {
        s.len() as int
    } else if kind_of(s[j]) == k {
        run_end_from(s, k, j + 1)
    } else {
        j
    }
}

pub proof fn lemma_run_end_character(s: Seq<char>, k: TokenKind, j: int)
    requires
        0 <= j <= s.len(),
    ensures
        j <= run_end_from(s, k, j) <= s.len(),
        forall|m: int| j <= m < run_end_from(s, k, j) ==> kind_of(#[trigger] s[m]) == k,
        run_end_from(s, k, j) < s.len() ==> kind_of(s[run_end_from(s, k, j)]) != k,
    decreases s.len() - j,
{
    if j < s.len() && kind_of(s[j]) == k {
        lemma_run_end_character(s, k, j + 1);
    }
}

/// The token beginning at position `i`: the maximal run of characters of
/// `s[i]`'s kind.
pub open spec fn head_token(s: Seq<char>, i: int) -> Token {
    let k = kind_of(s[i]);
    let e = run_end_from(s, k, i + 1);
    Token { kind: k, from: i as usize, to: (e - 1) as usize }
}

/// Position just past the token beginning at `i`.
pub open spec fn token_end(s: Seq<char>, i: int) -> int {
    run_end_from(s, kind_of(s[i]), i + 1)
}

/// The full token list of `s` from position `i` on.
pub open spec fn tokens_of(s: Seq<char>, i: int) -> Seq<Token>
    decreases s.len() - i,
    via tokens_of_dec
{
    if i < 0 || i >= s.len() {
        Seq::<Token>::empty()
    } else {
        seq![head_token(s, i)] + tokens_of(s, token_end(s, i))
    }
}

#[via_fn]
proof fn tokens_of_dec(s: Seq<char>, i: int) {
    if 0 <= i < s.len() {
        lemma_run_end_character(s, kind_of(s[i]), i + 1);
    }
}

/// The lexer's scanning state over a source text: a character cursor and
/// the byte offset of everything before it, kept in lock-step.
pub struct Lexer {
    source: Vec<char>,
    byte_cursor: usize,
    char_cursor: usize,
}

/// Mathematical state of a lexer.
pub ghost struct LexView {
    pub source: Seq<char>,
    pub byte_cursor: int,
    pub char_cursor: int,
}

impl View for Lexer {
    type V = LexView;

    closed spec fn view(&self) -> LexView {
        LexView {
            source: self.source@,
            byte_cursor: self.byte_cursor as int,
            char_cursor: self.char_cursor as int,
        }
    }
}

impl Lexer {
    /// Lexer invariant: the cursor is within the source and the byte
    /// cursor is the encoded length of the characters already consumed.
    pub open spec fn wf(self) -> bool {
        &&& 0 <= self@.char_cursor <= self@.source.len()
        &&& self@.byte_cursor == bytes_of(self@.source.take(self@.char_cursor))
        &&& bytes_of(self@.source) <= usize::MAX
    }

    /// A lexer at the start of `input`.
    pub fn new(input: Vec<char>) -> (r: Result<Lexer, String>)
        requires
            bytes_of(input@) <= usize::MAX,
        ensures
            r is Ok,
            r.unwrap().wf(),
            r.unwrap()@.source == input@,
            r.unwrap()@.char_cursor == 0,
            r.unwrap()@.byte_cursor == 0,
    {
        let l = Lexer { source: input, byte_cursor: 0, char_cursor: 0 };
        proof {
            assert(l@.source.take(0) =~= Seq::<char>::empty());
        }
        Ok(l)
    }

    /// The character at the cursor, if any.
    fn char_at_cursor(&self) -> (r: Option<char>)
        requires
            self.wf(),
        ensures
            self@.char_cursor < self@.source.len() <==> r is Some,
            r is Some ==> r.unwrap() == self@.source[self@.char_cursor],
    {
        if self.char_cursor < self.source.len() {
            Some(self.source[self.char_cursor])
        } else {
            None
        }
    }

    /// Scan the next maximal same-kind run; the produced token covers the
    /// run's inclusive character range, and the cursor moves past it.
    pub fn next_token(&mut self) -> (r: Option<Token>)
        requires
            old(self).wf(),
        ensures
            final(self).wf(),
            final(self)@.source == old(self)@.source,
            old(self)@.char_cursor >= old(self)@.source.len() ==> r is None && *final(self)
                == *old(self),
            old(self)@.char_cursor < old(self)@.source.len() ==> {
                &&& r is Some
                &&& r.unwrap() == head_token(old(self)@.source, old(self)@.char_cursor)
                &&& final(self)@.char_cursor == token_end(
                    old(self)@.source,
                    old(self)@.char_cursor,
                )
            },
    {
        let ghost s = self@.source;
        let len = self.source.len();
        let k = match self.char_at_cursor() {
            Some(c) => get_kind(c),
            None => {
                return None;
            },
        };
        let start = self.char_cursor;
        proof {
            lemma_bytes_of_take_monotonic(s, start as int, s.len() as int);
            assert(s.take(s.len() as int) =~= s);
            lemma_bytes_of_take_step(s, start as int);
        }
        let mut j = start + 1;
        let mut bytes = utf8_len(self.source[start]);
        while j < len && get_kind(self.source[j]) == k
            invariant
                start < j <= len,
                len == s.len(),
                self@.source == s,
                self.char_cursor == start,
                kind_of(s[start as int]) == k,
                forall|m: int| start < m < j ==> kind_of(#[trigger] s[m]) == k,
                bytes == bytes_of(s.take(j as int)) - bytes_of(s.take(start as int)),
                bytes_of(s) <= usize::MAX,
                self.wf(),
            decreases len - j,
        {
            proof {
                lemma_bytes_of_take_step(s, j as int);
                lemma_bytes_of_take_monotonic(s, j + 1, s.len() as int);
                lemma_bytes_of_take_monotonic(s, 0, start as int);
                lemma_bytes_of_nonneg(s.take(start as int));
                assert(s.take(s.len() as int) =~= s);
            }
            bytes = bytes + utf8_len(self.source[j]);
            j = j + 1;
        }
        proof {
            lemma_run_end_character(s, k, start + 1);
            let e = run_end_from(s, k, start + 1);
            assert(e == j) by {
                if e < j {
                    assert(kind_of(s[e]) == k);
                } else if e > j {
                    assert(kind_of(s[j as int]) == k);
                }
            }
            lemma_bytes_of_take_monotonic(s, 0, start as int);
            lemma_bytes_of_nonneg(s.take(start as int));
            lemma_bytes_of_take_monotonic(s, j as int, s.len() as int);
            assert(s.take(s.len() as int) =~= s);
            lemma_bytes_of_nonneg(s.take(j as int));
        }
        let token = Token::new(k, (start, j - 1));
        self.byte_cursor = self.byte_cursor + bytes;
        self.char_cursor = j;
        Some(token)
    }
}

/// The token list of a whole text, as the lexer produces it.
pub fn tokenize(input: &Vec<char>) -> (r: Vec<Token>)
    requires
        bytes_of(input@) <= usize::MAX,
    ensures
        r@ == tokens_of(input@, 0),
{
    let ghost s = input@;
    let mut lexer = match Lexer::new(crate::chars::copy_row(input)) {
        Ok(l) => l,
        Err(_) => unreached(),
    };
    let mut out: Vec<Token> = Vec::new();
    loop
        invariant
            s == input@,
            lexer.wf(),
            lexer@.source == s,
            out@ + tokens_of(s, lexer@.char_cursor) =~= tokens_of(s, 0),
        decreases s.len() - lexer@.char_cursor,
    {
        let ghost cc = lexer@.char_cursor;
        match lexer.next_token() {
            Some(t) => {
                proof {
                    lemma_run_end_character(s, kind_of(s[cc]), cc + 1);
                    assert(tokens_of(s, cc) == seq![head_token(s, cc)] + tokens_of(
                        s,
                        token_end(s, cc),
                    ));
                }
                out.push(t);
                proof {
                    assert(out@ + tokens_of(s, lexer@.char_cursor) =~= tokens_of(s, 0));
                }
            },
            None => {
                proof {
                    assert(tokens_of(s, cc) =~= Seq::<Token>::empty());
                    assert(out@ + Seq::<Token>::empty() =~= out@);
                    assert(out@ =~= tokens_of(s, 0));
                }
                return out;
            },
        }
    }
}

} // verus!
