//! Character-level model: UTF-8 encoded widths of characters, byte lengths
//! of character sequences, and the Unicode character classes the editor
//! consults (alphabetic, whitespace, ASCII digit).

use vstd::prelude::*;

verus! {

/// Number of bytes the UTF-8 encoding of `c` occupies (1 to 4), determined
/// by the code point alone.
pub open spec fn char_utf8_len(c: char) -> int {
    if (c as u32) < 0x80 {
        1
    } else if (c as u32) < 0x800 {
        2
    } else if (c as u32) < 0x10000 {
        3
    } else {
        4
    }
}

/// Byte length of the UTF-8 encoding of a character sequence.
pub open spec fn bytes_of(s: Seq<char>) -> int
    decreases s.len(),
{
    if s.len() == 0 {
        0
    } else {
        char_utf8_len(s[0]) + bytes_of(s.drop_first())
    }
}

/// `b` is a character boundary of `s`'s UTF-8 encoding: the byte length of
/// some prefix of `s`.
pub open spec fn is_boundary(s: Seq<char>, b: int) -> bool {
    exists|k: int| 0 <= k <= s.len() && b == bytes_of(s.take(k))
}

/// UTF-8 width of `c`, computed from the code point.
pub fn utf8_len(c: char) -> (n: usize)
    ensures
        n == char_utf8_len(c),
{
    let u = c as u32;
    if u < 0x80 {
        1
    } else if u < 0x800 {
        2
    } else if u < 0x10000 {
        3
    } else {
        4
    }
}

pub proof fn lemma_bytes_of_snoc(s: Seq<char>, c: char)
    ensures
        bytes_of(s.push(c)) == bytes_of(s) + char_utf8_len(c),
    decreases s.len(),
{
    assert(s.push(c)[0] == if s.len() == 0 { c } else { s[0] });
    if s.len() == 0 {
        assert(s.push(c).drop_first() =~= Seq::<char>::empty());
        assert(bytes_of(Seq::<char>::empty()) == 0);
    } else {
        assert(s.push(c).drop_first() =~= s.drop_first().push(c));
        lemma_bytes_of_snoc(s.drop_first(), c);
    }
}

pub proof fn lemma_bytes_of_take_step(s: Seq<char>, k: int)
    requires
        0 <= k < s.len(),
    ensures
        bytes_of(s.take(k + 1)) == bytes_of(s.take(k)) + char_utf8_len(s[k]),
{
    assert(s.take(k + 1) =~= s.take(k).push(s[k]));
    lemma_bytes_of_snoc(s.take(k), s[k]);
}

pub proof fn lemma_bytes_of_nonneg(s: Seq<char>)
    ensures
        bytes_of(s) >= s.len(),
    decreases s.len(),
{
    if s.len() > 0 {
        lemma_bytes_of_nonneg(s.drop_first());
    }
}

pub proof fn lemma_bytes_of_take_monotonic(s: Seq<char>, i: int, j: int)
    requires
        0 <= i <= j <= s.len(),
    ensures
        bytes_of(s.take(i)) <= bytes_of(s.take(j)),
    decreases j - i,
{
    if i < j {
        lemma_bytes_of_take_step(s, j - 1);
        lemma_bytes_of_nonneg(s.take(j - 1));
        lemma_bytes_of_take_monotonic(s, i, j - 1);
    }
}

/// Byte length of the concatenation is the sum of the byte lengths.
pub proof fn lemma_bytes_of_add(a: Seq<char>, b: Seq<char>)
    ensures
        bytes_of(a + b) == bytes_of(a) + bytes_of(b),
    decreases a.len(),
{
    if a.len() == 0 {
        assert(a + b =~= b);
    } else {
        assert((a + b).drop_first() =~= a.drop_first() + b);
        lemma_bytes_of_add(a.drop_first(), b);
    }
}

/// Byte length of `row`'s first `k` characters, by scanning their widths.
pub fn prefix_bytes(row: &Vec<char>, k: usize) -> (n: usize)
    requires
        k <= row@.len(),
        bytes_of(row@) <= usize::MAX,
    ensures
        n == bytes_of(row@.take(k as int)),
{
    let mut n: usize = 0;
    let mut i: usize = 0;
    while i < k
        invariant
            i <= k <= row@.len(),
            bytes_of(row@) <= usize::MAX,
            n == bytes_of(row@.take(i as int)),
        decreases k - i,
    {
        proof {
            lemma_bytes_of_take_step(row@, i as int);
            lemma_bytes_of_take_monotonic(row@, i + 1, row@.len() as int);
            assert(row@.take(row@.len() as int) =~= row@);
        }
        n = n + utf8_len(row[i]);
        i = i + 1;
    }
    n
}

/// Whether `c` has the Unicode `Alphabetic` property, as decided by
/// `char::is_alphabetic`; a function of the character alone.
pub uninterp spec fn alpha_of(c: char) -> bool;

/// Whether `c` has the Unicode `White_Space` property, as decided by
/// `char::is_whitespace`; a function of the character alone.
pub uninterp spec fn white_of(c: char) -> bool;

/// Relies on char::is_alphabetic: the result depends on the character alone.
pub assume_specification[ char::is_alphabetic ](c: char) -> (r: bool)
    ensures
        r == alpha_of(c),
;

/// Relies on char::is_whitespace: the result depends on the character alone.
pub assume_specification[ char::is_whitespace ](c: char) -> (r: bool)
    ensures
        r == white_of(c),
;

/// `n` space characters: the auto-indent prefix of a freshly opened row.
pub open spec fn spaces(n: int) -> Seq<char> {
    Seq::new(n as nat, |i: int| ' ')
}

pub proof fn lemma_bytes_of_spaces(n: int)
    requires
        n >= 0,
    ensures
        bytes_of(spaces(n)) == n,
    decreases n,
{
    if n > 0 {
        assert(spaces(n).drop_first() =~= spaces(n - 1));
        lemma_bytes_of_spaces(n - 1);
    }
}

/// A vector of `n` spaces.
pub fn spaces_vec(n: usize) -> (r: Vec<char>)
    ensures
        r@ == spaces(n as int),
{
    let mut r: Vec<char> = Vec::new();
    let mut i: usize = 0;
    while i < n
        invariant
            i <= n,
            r@ =~= spaces(i as int),
        decreases n - i,
    {
        r.push(' ');
        i = i + 1;
    }
    proof {
        assert(r@ =~= spaces(n as int));
    }
    r
}

/// Copy of `v` with the character range `[a, b)` removed.
pub fn copy_without_range(v: &Vec<char>, a: usize, b: usize) -> (r: Vec<char>)
    requires
        a <= b <= v@.len(),
    ensures
        r@ == v@.take(a as int) + v@.skip(b as int),
{
    let mut r: Vec<char> = Vec::new();
    let mut i: usize = 0;
    while i < a
        invariant
            i <= a <= b <= v@.len(),
            r@ =~= v@.take(i as int),
        decreases a - i,
    {
        r.push(v[i]);
        proof {
            assert(r@ =~= v@.take(i + 1));
        }
        i = i + 1;
    }
    let mut j: usize = b;
    while j < v.len()
        invariant
            a <= b <= j <= v@.len(),
            r@ =~= v@.take(a as int) + v@.skip(b as int).take(j - b),
        decreases v@.len() - j,
    {
        r.push(v[j]);
        proof {
            assert(r@ =~= v@.take(a as int) + v@.skip(b as int).take(j + 1 - b));
        }
        j = j + 1;
    }
    proof {
        assert(v@.skip(b as int).take(v@.len() - b) =~= v@.skip(b as int));
        assert(r@ =~= v@.take(a as int) + v@.skip(b as int));
    }
    r
}

/// Copy of `v` with `s` spliced in at character position `at`.
pub fn copy_with_insert(v: &Vec<char>, at: usize, s: &Vec<char>) -> (r: Vec<char>)
    requires
        at <= v@.len(),
    ensures
        r@ == v@.take(at as int) + s@ + v@.skip(at as int),
{
    let mut r: Vec<char> = Vec::new();
    let mut i: usize = 0;
    while i < at
        invariant
            i <= at <= v@.len(),
            r@ =~= v@.take(i as int),
        decreases at - i,
    {
        r.push(v[i]);
        proof {
            assert(r@ =~= v@.take(i + 1));
        }
        i = i + 1;
    }
    let mut j: usize = 0;
    while j < s.len()
        invariant
            at <= v@.len(),
            j <= s@.len(),
            r@ =~= v@.take(at as int) + s@.take(j as int),
        decreases s@.len() - j,
    {
        r.push(s[j]);
        proof {
            assert(r@ =~= v@.take(at as int) + s@.take(j + 1));
        }
        j = j + 1;
    }
    let mut k: usize = at;
    while k < v.len()
        invariant
            at <= k <= v@.len(),
            j == s@.len(),
            r@ =~= v@.take(at as int) + s@ + v@.skip(at as int).take(k - at),
        decreases v@.len() - k,
    {
        r.push(v[k]);
        proof {
            assert(r@ =~= v@.take(at as int) + s@ + v@.skip(at as int).take(k + 1 - at));
        }
        k = k + 1;
    }
    proof {
        assert(v@.skip(at as int).take(v@.len() - at) =~= v@.skip(at as int));
        assert(r@ =~= v@.take(at as int) + s@ + v@.skip(at as int));
    }
    r
}

/// An element-for-element copy of a row.
pub fn copy_row(v: &Vec<char>) -> (r: Vec<char>)
    ensures
        r@ == v@,
{
    let mut r: Vec<char> = Vec::new();
    let mut i: usize = 0;
    while i < v.len()
        invariant
            i <= v@.len(),
            r@ =~= v@.take(i as int),
        decreases v@.len() - i,
    {
        r.push(v[i]);
        proof {
            assert(r@ =~= v@.take(i + 1));
        }
        i = i + 1;
    }
    proof {
        assert(v@.take(v@.len() as int) =~= v@);
    }
    r
}

/// Concatenation of two rows.
pub fn concat_rows(a: &Vec<char>, b: &Vec<char>) -> (r: Vec<char>)
    ensures
        r@ == a@ + b@,
{
    let mut r: Vec<char> = Vec::new();
    let mut i: usize = 0;
    while i < a.len()
        invariant
            i <= a@.len(),
            r@ =~= a@.take(i as int),
        decreases a@.len() - i,
    {
        r.push(a[i]);
        proof {
            assert(r@ =~= a@.take(i + 1));
        }
        i = i + 1;
    }
    proof {
        assert(a@.take(a@.len() as int) =~= a@);
    }
    let mut j: usize = 0;
    while j < b.len()
        invariant
            j <= b@.len(),
            r@ =~= a@ + b@.take(j as int),
        decreases b@.len() - j,
    {
        r.push(b[j]);
        proof {
            assert(r@ =~= a@ + b@.take(j + 1));
        }
        j = j + 1;
    }
    proof {
        assert(b@.take(b@.len() as int) =~= b@);
        assert(r@ =~= a@ + b@);
    }
    r
}

/// Append `src`'s characters to `dst`.
pub fn extend_chars(dst: &mut Vec<char>, src: &Vec<char>)
    ensures
        final(dst)@ == old(dst)@ + src@,
{
    let ghost d0 = dst@;
    let mut i: usize = 0;
    while i < src.len()
        invariant
            i <= src@.len(),
            dst@ =~= d0 + src@.take(i as int),
        decreases src@.len() - i,
    {
        dst.push(src[i]);
        proof {
            assert(dst@ =~= d0 + src@.take(i + 1));
        }
        i = i + 1;
    }
    proof {
        assert(src@.take(src@.len() as int) =~= src@);
        assert(dst@ =~= d0 + src@);
    }
}

/// ASCII decimal digit, `'0'` to `'9'`.
pub open spec fn digit_of(c: char) -> bool {
    48 <= (c as u32) <= 57
}

/// Whether `c` is an ASCII decimal digit.
pub fn is_digit(c: char) -> (r: bool)
    ensures
        r == digit_of(c),
{
    let u = c as u32;
    48 <= u && u <= 57
}

} // verus!
