//! The source text as characters, and the arithmetic between characters,
//! byte offsets and line/column positions.

use crate::token::Position;
use vstd::prelude::*;
use vstd::std_specs::iter::IteratorSpec;
use vstd::utf8::*;

verus! {

/// The number of bytes that `c` takes in UTF-8.
pub open spec fn utf8_width(c: char) -> nat {
    encode_scalar(c as u32).len()
}

/// The number of bytes that `s` takes in UTF-8.
pub open spec fn byte_len(s: Seq<char>) -> nat {
    encode_utf8(s).len()
}

/// The byte offset at which the character with index `i` starts; for `i`
/// equal to the length, the offset of the end of the text.
pub open spec fn byte_offset(s: Seq<char>, i: int) -> nat {
    byte_len(s.take(i))
}

/// The line and column reached from `(line, column)` by walking over the
/// characters of `s` that start before the byte offset `offset`: a newline
/// moves to the first column of the next line, any other character moves
/// one column to the right.
pub open spec fn locate(s: Seq<char>, offset: int, line: int, column: int) -> (int, int)
    decreases s.len(),
{
    if s.len() == 0 || offset <= 0 {
        (line, column)
    } else if s[0] == '\n' {
        locate(s.drop_first(), offset - utf8_width(s[0]), line + 1, 1)
    } else {
        locate(s.drop_first(), offset - utf8_width(s[0]), line, column + 1)
    }
}

/// The position of the byte offset `offset` in `s`, counted from line 1,
/// column 1.
pub open spec fn position_of(s: Seq<char>, offset: int) -> (int, int) {
    locate(s, offset, 1, 1)
}

/// The characters of `s` that start at a byte offset in `begin..end`.
pub open spec fn slice_of(s: Seq<char>, begin: int, end: int) -> Seq<char>
    decreases s.len(),
{
    if s.len() == 0 || end <= 0 {
        Seq::empty()
    } else {
        let rest = slice_of(s.drop_first(), begin - utf8_width(s[0]), end - utf8_width(s[0]));
        if begin <= 0 {
            seq![s[0]] + rest
        } else {
            rest
        }
    }
}

/// The encoding of a text and one more character.
pub proof fn lemma_encode_push(s: Seq<char>, c: char)
    ensures
        encode_utf8(s.push(c)) == encode_utf8(s) + encode_scalar(c as u32),
    decreases s.len(),
{
    if s.len() == 0 {
        assert(s.push(c).drop_first() =~= Seq::<char>::empty());
        assert(encode_utf8(Seq::<char>::empty()) =~= Seq::<u8>::empty());
        assert(encode_utf8(s.push(c)) =~= encode_scalar(c as u32) + encode_utf8(
            s.push(c).drop_first(),
        ));
        assert(encode_utf8(s) =~= Seq::<u8>::empty());
        assert(encode_utf8(s.push(c)) =~= encode_utf8(s) + encode_scalar(c as u32));
    } else {
        lemma_encode_push(s.drop_first(), c);
        assert(s.push(c).drop_first() =~= s.drop_first().push(c));
        assert(encode_utf8(s.push(c)) =~= encode_utf8(s) + encode_scalar(c as u32));
    }
}

/// Each character moves the offset on by its width.
pub proof fn lemma_offset_step(s: Seq<char>, i: int)
    requires
        0 <= i < s.len(),
    ensures
        byte_offset(s, i + 1) == byte_offset(s, i) + utf8_width(s[i]),
        byte_offset(s, i) < byte_offset(s, i + 1),
{
    assert(s.take(i + 1) =~= s.take(i).push(s[i]));
    lemma_encode_push(s.take(i), s[i]);
}

/// Offsets grow with the index, and strictly so.
pub proof fn lemma_offset_monotone(s: Seq<char>, i: int, j: int)
    requires
        0 <= i <= j <= s.len(),
    ensures
        byte_offset(s, i) + (j - i) <= byte_offset(s, j),
    decreases j - i,
{
    if i < j {
        lemma_offset_monotone(s, i, j - 1);
        lemma_offset_step(s, j - 1);
    }
}

/// The first character starts at offset zero, and the text ends at its
/// byte length.
pub proof fn lemma_offset_ends(s: Seq<char>)
    ensures
        byte_offset(s, 0) == 0,
        byte_offset(s, s.len() as int) == byte_len(s),
{
    assert(s.take(0) =~= Seq::<char>::empty());
    assert(s.take(s.len() as int) =~= s);
}

/// The character with index `i`, or the NUL character where there is none.
pub open spec fn char_at(s: Seq<char>, i: int) -> char {
    if 0 <= i < s.len() {
        s[i]
    } else {
        '\0'
    }
}

/// The source text, decoded into characters once.
pub struct Lines {
    chars: Vec<char>,
    length: usize,
}

impl View for Lines {
    type V = Seq<char>;

    closed spec fn view(&self) -> Seq<char> {
        self.chars@
    }
}

/// The characters of `source`, in order.
pub fn decode(source: &str) -> (chars: Vec<char>)
    ensures
        chars@ == source@,
{
    let mut chars: Vec<char> = Vec::new();
    let iter = source.chars();
    for c in it: iter
        invariant
            chars@ == it.history(),
            it.seq() == source@,
    {
        chars.push(c);
    }
    assert(chars@ =~= source@);
    chars
}

/// The number of bytes that `c` takes in UTF-8.
pub fn width(c: char) -> (w: usize)
    ensures
        w == utf8_width(c),
        1 <= w <= 4,
{
    let v: u32 = c as u32;
    if v < 0x80 {
        1
    } else if v < 0x800 {
        2
    } else if v < 0x10000 {
        3
    } else {
        4
    }
}

impl Lines {
    /// What holds of every value: the stored length is the byte length of
    /// the text.
    pub closed spec fn wf(&self) -> bool {
        self.length == byte_len(self.chars@) && byte_len(self.chars@) < usize::MAX
    }

    /// A well-formed text has room for its offsets in a machine integer.
    pub proof fn lemma_bounded(&self)
        requires
            self.wf(),
        ensures
            self@.len() <= byte_len(self@) < usize::MAX,
    {
        lemma_offset_ends(self@);
        lemma_offset_monotone(self@, 0, self@.len() as int);
    }

    /// The text of `source`.
    pub fn new(source: &str) -> (lines: Lines)
        requires
            byte_len(source@) < usize::MAX,
        ensures
            lines@ == source@,
            lines.wf(),
    {
        let chars = decode(source);
        Lines { chars, length: source.len() }
    }

    /// The number of characters.
    pub fn len(&self) -> (n: usize)
        requires
            self.wf(),
        ensures
            n == self@.len(),
            n < usize::MAX,
    {
        proof {
            lemma_offset_ends(self@);
            lemma_offset_monotone(self@, 0, self@.len() as int);
        }
        self.chars.len()
    }

    /// The character with index `index`, or NUL past the end.
    pub fn peek(&self, index: usize) -> (c: char)
        ensures
            c == char_at(self@, index as int),
    {
        if index < self.chars.len() {
            self.chars[index]
        } else {
            '\0'
        }
    }

    /// Whether the characters from `from` up to `to` spell `word`.
    pub fn spells(&self, from: usize, to: usize, word: &str) -> (r: bool)
        requires
            from <= to <= self@.len(),
        ensures
            r == (self@.subrange(from as int, to as int) == word@),
    {
        let n = word.unicode_len();
        if to - from != n {
            return false;
        }
        let mut k: usize = 0;
        while k < n
            invariant
                from <= to <= self@.len(),
                self.chars@ == self@,
                to - from == n,
                n == word@.len(),
                0 <= k <= n,
                forall|j: int| 0 <= j < k ==> self@[from + j] == word@[j],
            decreases n - k,
        {
            if self.chars[from + k] != word.get_char(k) {
                assert(self@.subrange(from as int, to as int)[k as int] != word@[k as int]);
                return false;
            }
            k += 1;
        }
        assert(self@.subrange(from as int, to as int) =~= word@);
        true
    }

    /// The byte offset of the end of the text.
    pub fn eof_offset(&self) -> (offset: usize)
        requires
            self.wf(),
        ensures
            offset == byte_len(self@),
            offset < usize::MAX,
    {
        self.length
    }

    /// The line and column of the byte offset `offset`. An offset inside a
    /// character counts as the offset of the next one, and one past the end
    /// as the end.
    pub fn get_position(&self, offset: usize) -> (position: Position)
        requires
            self.wf(),
        ensures
            (position.line as int, position.column as int) == position_of(self@, offset as int),
    {
        let mut line: usize = 1;
        let mut column: usize = 1;
        let mut index: usize = 0;
        let mut seen: usize = 0;
        proof {
            lemma_offset_ends(self@);
            lemma_offset_monotone(self@, 0, self@.len() as int);
            assert(self@.skip(0) =~= self@);
        }
        while index < self.chars.len() && seen < offset
            invariant
                self.wf(),
                self@.len() < usize::MAX,
                self.chars@ == self@,
                0 <= index <= self.chars.len(),
                seen == byte_offset(self@, index as int),
                line <= index + 1,
                column <= index + 1,
                position_of(self@, offset as int) == locate(
                    self@.skip(index as int),
                    offset - seen,
                    line as int,
                    column as int,
                ),
            decreases self.chars.len() - index,
        {
            let c = self.chars[index];
            proof {
                lemma_offset_step(self@, index as int);
                lemma_offset_monotone(self@, index as int + 1, self@.len() as int);
                lemma_offset_ends(self@);
                assert(self@.skip(index as int).drop_first() =~= self@.skip(index as int + 1));
                assert(self@.skip(index as int)[0] == c);
            }
            if c == '\n' {
                column = 1;
                line += 1;
            } else {
                column += 1;
            }
            seen += width(c);
            index += 1;
        }
        Position { line, column }
    }

    /// The text between the byte offsets `begin` and `end`: the characters
    /// that start at an offset in `begin..end`.
    pub fn slice(&self, begin: usize, end: usize) -> (text: String)
        requires
            self.wf(),
        ensures
            text@ == slice_of(self@, begin as int, end as int),
    {
        let mut text = String::new();
        let mut index: usize = 0;
        let mut seen: usize = 0;
        proof {
            lemma_offset_ends(self@);
            assert(self@.skip(0) =~= self@);
            assert(text@ + slice_of(self@, begin as int, end as int) =~= slice_of(
                self@,
                begin as int,
                end as int,
            ));
        }
        while index < self.chars.len() && seen < end
            invariant
                self.wf(),
                self.chars@ == self@,
                0 <= index <= self.chars.len(),
                seen == byte_offset(self@, index as int),
                slice_of(self@, begin as int, end as int) == text@ + slice_of(
                    self@.skip(index as int),
                    begin - seen,
                    end - seen,
                ),
            decreases self.chars.len() - index,
        {
            let c = self.chars[index];
            proof {
                lemma_offset_step(self@, index as int);
                lemma_offset_monotone(self@, index as int + 1, self@.len() as int);
                lemma_offset_ends(self@);
                assert(self@.skip(index as int).drop_first() =~= self@.skip(index as int + 1));
                assert(self@.skip(index as int)[0] == c);
            }
            let ghost before = text@;
            let ghost rest = slice_of(
                self@.skip(index as int + 1),
                begin - seen - utf8_width(c),
                end - seen - utf8_width(c),
            );
            if begin <= seen {
                push_char(&mut text, c);
                proof {
                    assert(before + (seq![c] + rest) =~= before.push(c) + rest);
                }
            }
            seen += width(c);
            index += 1;
        }
        proof {
            assert(text@ + Seq::<char>::empty() =~= text@);
        }
        text
    }
}

/// Whether two strings hold the same text.
pub fn same_text(a: &str, b: &str) -> (r: bool)
    ensures
        r == (a@ == b@),
{
    let n = a.unicode_len();
    if b.unicode_len() != n {
        return false;
    }
    let mut k: usize = 0;
    while k < n
        invariant
            n == a@.len(),
            n == b@.len(),
            0 <= k <= n,
            forall|j: int| 0 <= j < k ==> a@[j] == b@[j],
        decreases n - k,
    {
        if a.get_char(k) != b.get_char(k) {
            return false;
        }
        k += 1;
    }
    assert(a@ =~= b@);
    true
}

/// `String::push`: appends one character to the string.
#[verifier::external_body]
pub(crate) fn push_char(text: &mut String, c: char)
    ensures
        final(text)@ == old(text)@.push(c),
{
    text.push(c);
}

} // verus!
