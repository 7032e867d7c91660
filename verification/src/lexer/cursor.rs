//! The raw tokenizer: one pass over the characters, one token per call.

use crate::chars::{
    in_class, is_digit, is_in_class, is_letter_lowercase, is_letter_uppercase, is_punctuation,
    is_symbol, digit, letter_lowercase, letter_uppercase, punctuation, symbol, whitespace,
    is_whitespace, CharClass,
};
use crate::lines::{
    byte_len, byte_offset, char_at, lemma_offset_ends, lemma_offset_monotone, lemma_offset_step,
    width, Lines,
};
use crate::token::{DelimiterK, DigitK, IdentifierK, OperatorK, Token, TokenK, UnknownK};
use vstd::prelude::*;

verus! {

/// The end of the run of characters of `class` that starts at `i`.
pub open spec fn scan(s: Seq<char>, i: int, class: CharClass) -> int
    decreases s.len() - i,
{
    if 0 <= i < s.len() && in_class(class, s[i]) {
        scan(s, i + 1, class)
    } else {
        i
    }
}

/// Searching from `i` for the `-}` that closes a block comment: the index
/// just past it, or `None` where the text ends first.
pub open spec fn block_comment_end(s: Seq<char>, i: int) -> Option<int>
    decreases s.len() - i,
{
    if i < 0 || i >= s.len() {
        None
    } else if s[i] == '-' && char_at(s, i + 1) == '}' {
        Some(i + 2)
    } else {
        block_comment_end(s, i + 1)
    }
}

/// Where the whitespace and comments that start at `i` end, and whether
/// they end at a block comment that is never closed. Trivia is any run of
/// line comments (`--` to the end of the line), block comments (`{-` to
/// `-}`) and whitespace.
pub open spec fn skip_trivia(s: Seq<char>, i: int) -> (int, bool)
    decreases s.len() - i,
{
    if i < 0 || i >= s.len() {
        (i, false)
    } else if s[i] == '-' && char_at(s, i + 1) == '-' {
        let j = scan(s, i, CharClass::NotNewline);
        if i < j <= s.len() {
            skip_trivia(s, j)
        } else {
            (i, false)
        }
    } else if s[i] == '{' && char_at(s, i + 1) == '-' {
        match block_comment_end(s, i) {
            Some(j) => if i < j <= s.len() {
                skip_trivia(s, j)
            } else {
                (i, false)
            },
            None => (i, true),
        }
    } else if whitespace(s[i]) {
        let j = scan(s, i, CharClass::Whitespace);
        if i < j <= s.len() {
            skip_trivia(s, j)
        } else {
            (i, false)
        }
    } else {
        (i, false)
    }
}

/// The kind of the identifier spelled `text`: a keyword by exact match,
/// else a lowercase name.
pub open spec fn keyword_of(text: Seq<char>) -> IdentifierK {
    if text == "ado"@ {
        IdentifierK::Ado
    } else if text == "as"@ {
        IdentifierK::As
    } else if text == "case"@ {
        IdentifierK::Case
    } else if text == "do"@ {
        IdentifierK::Do
    } else if text == "else"@ {
        IdentifierK::Else
    } else if text == "if"@ {
        IdentifierK::If
    } else if text == "in"@ {
        IdentifierK::In
    } else if text == "infixl"@ {
        IdentifierK::Infixl
    } else if text == "infixr"@ {
        IdentifierK::Infixr
    } else if text == "let"@ {
        IdentifierK::Let
    } else if text == "of"@ {
        IdentifierK::Of
    } else if text == "then"@ {
        IdentifierK::Then
    } else if text == "type"@ {
        IdentifierK::Type
    } else {
        IdentifierK::Lower
    }
}

/// The kind of the operator spelled `text`: a built-in one by exact match,
/// else one that the source defines.
pub open spec fn operator_of(text: Seq<char>) -> OperatorK {
    if text == "->"@ {
        OperatorK::ArrowRight
    } else if text == "<-"@ {
        OperatorK::ArrowLeft
    } else if text == "="@ {
        OperatorK::Equal
    } else if text == ":"@ {
        OperatorK::Colon
    } else if text == "."@ {
        OperatorK::Period
    } else if text == "|"@ {
        OperatorK::Pipe
    } else if text == "?"@ {
        OperatorK::Question
    } else if text == "!"@ {
        OperatorK::Bang
    } else if text == "_"@ {
        OperatorK::Underscore
    } else if text == "<"@ {
        OperatorK::LessThan
    } else if text == ">"@ {
        OperatorK::GreaterThan
    } else {
        OperatorK::Source
    }
}

/// Whether an identifier may start with `c`, given the character `next`
/// after it: a lowercase letter, or the first of two underscores.
pub open spec fn starts_lower(c: char, next: char) -> bool {
    letter_lowercase(c) || (c == '_' && next == '_')
}

/// The number that starts at `i` with a digit: its kind and its end. Digits
/// followed by `.` and a digit go on as a float; followed by `..` they end
/// before the periods; followed by `.` and anything else they are an
/// unfinished float that takes the period.
pub open spec fn number_at(s: Seq<char>, i: int) -> (TokenK, int) {
    let d = scan(s, i + 1, CharClass::Digit);
    if char_at(s, d) == '.' {
        if char_at(s, d + 1) == '.' {
            (TokenK::Digit(DigitK::Int), d)
        } else if digit(char_at(s, d + 1)) {
            (TokenK::Digit(DigitK::Float), scan(s, d + 1, CharClass::Digit))
        } else {
            (TokenK::Unknown(UnknownK::UnfinishedFloat), d + 1)
        }
    } else {
        (TokenK::Digit(DigitK::Int), d)
    }
}

/// The kind and the end of the token whose text starts at the character
/// `i`. At the end of the text this is the end-of-file token, of no width.
pub open spec fn token_at(s: Seq<char>, i: int) -> (TokenK, int) {
    let c = char_at(s, i);
    if i < 0 || i >= s.len() {
        (TokenK::Unknown(UnknownK::EndOfFile), i)
    } else if c == '(' {
        (TokenK::OpenDelimiter(DelimiterK::Round), i + 1)
    } else if c == '[' {
        (TokenK::OpenDelimiter(DelimiterK::Square), i + 1)
    } else if c == '{' {
        (TokenK::OpenDelimiter(DelimiterK::Brace), i + 1)
    } else if c == ')' {
        (TokenK::CloseDelimiter(DelimiterK::Round), i + 1)
    } else if c == ']' {
        (TokenK::CloseDelimiter(DelimiterK::Square), i + 1)
    } else if c == '}' {
        (TokenK::CloseDelimiter(DelimiterK::Brace), i + 1)
    } else if c == ',' {
        (TokenK::Operator(OperatorK::Comma), i + 1)
    } else if c == '\\' {
        (TokenK::Operator(OperatorK::Backslash), i + 1)
    } else if starts_lower(c, char_at(s, i + 1)) {
        let end = scan(s, i + 1, CharClass::Identifier);
        (TokenK::Identifier(keyword_of(s.subrange(i, end))), end)
    } else if letter_uppercase(c) {
        (TokenK::Identifier(IdentifierK::Upper), scan(s, i + 1, CharClass::Identifier))
    } else if symbol(c) || punctuation(c) {
        let end = scan(s, i + 1, CharClass::Operator);
        (TokenK::Operator(operator_of(s.subrange(i, end))), end)
    } else if digit(c) {
        number_at(s, i)
    } else if c == '\0' {
        (TokenK::Unknown(UnknownK::EndOfFile), i + 1)
    } else {
        (TokenK::Unknown(UnknownK::UnknownToken), i + 1)
    }
}

/// The offset of the character `i` as a machine integer.
pub open spec fn offset_at(s: Seq<char>, i: int) -> usize {
    byte_offset(s, i) as usize
}

/// The token that is read from the character `i` on, and the character at
/// which the next one is read. Its spans are in bytes and its depth is 0.
/// A block comment that is never closed is a token of its own, from its
/// `{-` to the end of the text.
pub open spec fn next_token(s: Seq<char>, i: int) -> (Token, int) {
    let (t, unfinished) = skip_trivia(s, i);
    let (kind, end) = if unfinished {
        (TokenK::Unknown(UnknownK::UnfinishedComment), s.len() as int)
    } else {
        token_at(s, t)
    };
    (
        Token {
            comment_begin: offset_at(s, i),
            comment_end: offset_at(s, t),
            begin: offset_at(s, t),
            end: offset_at(s, end),
            kind,
            depth: 0,
        },
        end,
    )
}

/// A run ends within the text, at or after its start.
pub proof fn lemma_scan_bounds(s: Seq<char>, i: int, class: CharClass)
    requires
        0 <= i <= s.len(),
    ensures
        i <= scan(s, i, class) <= s.len(),
    decreases s.len() - i,
{
    if i < s.len() && in_class(class, s[i]) {
        lemma_scan_bounds(s, i + 1, class);
    }
}

/// A block comment that is closed ends within the text, two characters or
/// more after the place of the search.
pub proof fn lemma_block_comment_bounds(s: Seq<char>, i: int)
    requires
        0 <= i <= s.len(),
    ensures
        block_comment_end(s, i) matches Some(j) ==> i + 2 <= j <= s.len(),
    decreases s.len() - i,
{
    if i < s.len() && !(s[i] == '-' && char_at(s, i + 1) == '}') {
        lemma_block_comment_bounds(s, i + 1);
    }
}

/// Trivia ends within the text, at or after its start.
pub proof fn lemma_skip_trivia_bounds(s: Seq<char>, i: int)
    requires
        0 <= i <= s.len(),
    ensures
        i <= skip_trivia(s, i).0 <= s.len(),
    decreases s.len() - i,
{
    if i < s.len() {
        if s[i] == '-' && char_at(s, i + 1) == '-' {
            let j = scan(s, i, CharClass::NotNewline);
            lemma_scan_bounds(s, i, CharClass::NotNewline);
            if j > i {
                lemma_skip_trivia_bounds(s, j);
            }
        } else if s[i] == '{' && char_at(s, i + 1) == '-' {
            lemma_block_comment_bounds(s, i);
            match block_comment_end(s, i) {
                Some(j) => {
                    lemma_skip_trivia_bounds(s, j);
                },
                None => {},
            }
        } else if whitespace(s[i]) {
            let j = scan(s, i, CharClass::Whitespace);
            lemma_scan_bounds(s, i, CharClass::Whitespace);
            if j > i {
                lemma_skip_trivia_bounds(s, j);
            }
        }
    }
}

/// A token ends within the text, and after its start unless it is the
/// end-of-file token at the end of the text.
pub proof fn lemma_token_at_bounds(s: Seq<char>, i: int)
    requires
        0 <= i <= s.len(),
    ensures
        i <= token_at(s, i).1 <= s.len(),
        i < s.len() ==> i < token_at(s, i).1,
        i == s.len() ==> token_at(s, i).0 == TokenK::Unknown(UnknownK::EndOfFile),
{
    if i < s.len() {
        lemma_scan_bounds(s, i + 1, CharClass::Identifier);
        lemma_scan_bounds(s, i + 1, CharClass::Operator);
        lemma_scan_bounds(s, i + 1, CharClass::Digit);
        let d = scan(s, i + 1, CharClass::Digit);
        if d < s.len() {
            lemma_scan_bounds(s, d + 1, CharClass::Digit);
        }
    }
}

/// The raw tokenizer over a source text.
pub struct Cursor {
    lines: Lines,
    index: usize,
    offset: usize,
}

impl Cursor {
    /// The characters of the source.
    pub closed spec fn text(&self) -> Seq<char> {
        self.lines@
    }

    /// The index of the character at which the next token is read.
    pub closed spec fn position(&self) -> int {
        self.index as int
    }

    /// What holds of every cursor: it stands within the text, and knows the
    /// byte offset at which it stands.
    pub closed spec fn wf(&self) -> bool {
        &&& self.lines.wf()
        &&& self.index <= self.lines@.len()
        &&& self.offset == byte_offset(self.lines@, self.index as int)
    }

    /// A cursor at the start of `source`.
    pub fn new(source: &str) -> (cursor: Cursor)
        requires
            byte_len(source@) < usize::MAX,
        ensures
            cursor.wf(),
            cursor.text() == source@,
            cursor.position() == 0,
    {
        let lines = Lines::new(source);
        proof {
            lemma_offset_ends(lines@);
        }
        Cursor { lines, index: 0, offset: 0 }
    }

    /// The cursor stands within the text.
    pub proof fn lemma_position(&self)
        requires
            self.wf(),
        ensures
            0 <= self.position() <= self.text().len(),
    {
    }

    /// The source text that the cursor reads.
    pub fn lines(&self) -> (lines: &Lines)
        requires
            self.wf(),
        ensures
            lines@ == self.text(),
            lines.wf(),
    {
        &self.lines
    }

    fn is_eof(&self) -> (r: bool)
        requires
            self.wf(),
        ensures
            r == (self.position() >= self.text().len()),
    {
        self.index >= self.lines.len()
    }

    fn consumed(&self) -> (offset: usize)
        requires
            self.wf(),
        ensures
            offset == offset_at(self.text(), self.position()),
    {
        self.offset
    }

    fn peek_1(&self) -> (c: char)
        requires
            self.wf(),
        ensures
            c == char_at(self.text(), self.position()),
    {
        self.lines.peek(self.index)
    }

    fn peek_2(&self) -> (c: char)
        requires
            self.wf(),
        ensures
            c == char_at(self.text(), self.position() + 1),
    {
        proof {
            self.lines.lemma_bounded();
        }
        self.lines.peek(self.index + 1)
    }

    /// Moves over one character and returns it; at the end of the text,
    /// stays and returns NUL.
    fn take(&mut self) -> (c: char)
        requires
            old(self).wf(),
        ensures
            final(self).wf(),
            final(self).text() == old(self).text(),
            c == char_at(old(self).text(), old(self).position()),
            final(self).position() == if old(self).position() < old(self).text().len() {
                old(self).position() + 1
            } else {
                old(self).position()
            },
    {
        let n = self.lines.len();
        let c = self.lines.peek(self.index);
        if self.index < n {
            proof {
                lemma_offset_step(self.lines@, self.index as int);
                lemma_offset_monotone(self.lines@, self.index as int + 1, self.lines@.len() as int);
                lemma_offset_ends(self.lines@);
                self.lines.lemma_bounded();
            }
            self.offset += width(c);
            self.index += 1;
        }
        c
    }

    /// Moves to the end of the text.
    fn take_rest(&mut self)
        requires
            old(self).wf(),
        ensures
            final(self).wf(),
            final(self).text() == old(self).text(),
            final(self).position() == old(self).text().len(),
    {
        proof {
            lemma_offset_ends(self.lines@);
        }
        self.index = self.lines.len();
        self.offset = self.lines.eof_offset();
    }

    /// Moves over the run of characters of `class`.
    fn take_while(&mut self, class: CharClass)
        requires
            old(self).wf(),
        ensures
            final(self).wf(),
            final(self).text() == old(self).text(),
            final(self).position() == scan(old(self).text(), old(self).position(), class),
    {
        let n = self.lines.len();
        while self.index < n && is_in_class(class, self.lines.peek(self.index))
            invariant
                self.wf(),
                n == self.lines@.len(),
                self.text() == old(self).text(),
                old(self).position() <= self.position(),
                scan(old(self).text(), old(self).position(), class) == scan(
                    self.text(),
                    self.position(),
                    class,
                ),
            decreases n - self.index,
        {
            let _ = self.take();
        }
    }

    /// Searches for the end of a block comment; `None` where it has none.
    fn block_comment(&self, from: usize) -> (end: Option<usize>)
        requires
            self.wf(),
            from <= self.text().len(),
        ensures
            match end {
                Some(j) => block_comment_end(self.text(), from as int) == Some(j as int),
                None => block_comment_end(self.text(), from as int).is_none(),
            },
    {
        let n = self.lines.len();
        let mut i = from;
        while i < n
            invariant
                self.wf(),
                n == self.lines@.len(),
                from <= i <= n,
                block_comment_end(self.text(), from as int) == block_comment_end(
                    self.text(),
                    i as int,
                ),
            decreases n - i,
        {
            if self.lines.peek(i) == '-' && self.lines.peek(i + 1) == '}' {
                proof {
                    lemma_block_comment_bounds(self.text(), i as int);
                }
                return Some(i + 2);
            }
            i += 1;
        }
        None
    }

    /// Moves to the character `to`, which lies ahead.
    fn advance_to(&mut self, to: usize)
        requires
            old(self).wf(),
            old(self).position() <= to <= old(self).text().len(),
        ensures
            final(self).wf(),
            final(self).text() == old(self).text(),
            final(self).position() == to,
    {
        while self.index < to
            invariant
                self.wf(),
                self.text() == old(self).text(),
                self.position() <= to <= self.text().len(),
            decreases to - self.index,
        {
            let _ = self.take();
        }
    }

    /// Moves over whitespace and comments. Returns whether it stopped at a
    /// block comment that is never closed.
    fn take_trivia(&mut self) -> (unfinished: bool)
        requires
            old(self).wf(),
        ensures
            final(self).wf(),
            final(self).text() == old(self).text(),
            (final(self).position(), unfinished) == skip_trivia(
                old(self).text(),
                old(self).position(),
            ),
    {
        let n = self.lines.len();
        loop
            invariant
                self.wf(),
                n == self.lines@.len(),
                self.text() == old(self).text(),
                skip_trivia(old(self).text(), old(self).position()) == skip_trivia(
                    self.text(),
                    self.position(),
                ),
            decreases n - self.index,
        {
            if self.index >= n {
                return false;
            }
            let c1 = self.peek_1();
            let c2 = self.peek_2();
            let ghost before = self.position();
            if c1 == '-' && c2 == '-' {
                self.take_while(CharClass::NotNewline);
                proof {
                    assert(scan(self.text(), before, CharClass::NotNewline) == scan(
                        self.text(),
                        before + 1,
                        CharClass::NotNewline,
                    ));
                    lemma_scan_bounds(self.text(), before + 1, CharClass::NotNewline);
                }
            } else if c1 == '{' && c2 == '-' {
                match self.block_comment(self.index) {
                    Some(end) => {
                        proof {
                            lemma_block_comment_bounds(self.text(), before);
                        }
                        self.advance_to(end);
                    },
                    None => {
                        return true;
                    },
                }
            } else if is_whitespace(c1) {
                self.take_while(CharClass::Whitespace);
                proof {
                    assert(scan(self.text(), before, CharClass::Whitespace) == scan(
                        self.text(),
                        before + 1,
                        CharClass::Whitespace,
                    ));
                    lemma_scan_bounds(self.text(), before + 1, CharClass::Whitespace);
                }
            } else {
                return false;
            }
        }
    }

    fn keyword(&self, from: usize, to: usize) -> (kind: IdentifierK)
        requires
            self.wf(),
            from <= to <= self.text().len(),
        ensures
            kind == keyword_of(self.text().subrange(from as int, to as int)),
    {
        if self.lines.spells(from, to, "ado") {
            IdentifierK::Ado
        } else if self.lines.spells(from, to, "as") {
            IdentifierK::As
        } else if self.lines.spells(from, to, "case") {
            IdentifierK::Case
        } else if self.lines.spells(from, to, "do") {
            IdentifierK::Do
        } else if self.lines.spells(from, to, "else") {
            IdentifierK::Else
        } else if self.lines.spells(from, to, "if") {
            IdentifierK::If
        } else if self.lines.spells(from, to, "in") {
            IdentifierK::In
        } else if self.lines.spells(from, to, "infixl") {
            IdentifierK::Infixl
        } else if self.lines.spells(from, to, "infixr") {
            IdentifierK::Infixr
        } else if self.lines.spells(from, to, "let") {
            IdentifierK::Let
        } else if self.lines.spells(from, to, "of") {
            IdentifierK::Of
        } else if self.lines.spells(from, to, "then") {
            IdentifierK::Then
        } else if self.lines.spells(from, to, "type") {
            IdentifierK::Type
        } else {
            IdentifierK::Lower
        }
    }

    fn operator(&self, from: usize, to: usize) -> (kind: OperatorK)
        requires
            self.wf(),
            from <= to <= self.text().len(),
        ensures
            kind == operator_of(self.text().subrange(from as int, to as int)),
    {
        if self.lines.spells(from, to, "->") {
            OperatorK::ArrowRight
        } else if self.lines.spells(from, to, "<-") {
            OperatorK::ArrowLeft
        } else if self.lines.spells(from, to, "=") {
            OperatorK::Equal
        } else if self.lines.spells(from, to, ":") {
            OperatorK::Colon
        } else if self.lines.spells(from, to, ".") {
            OperatorK::Period
        } else if self.lines.spells(from, to, "|") {
            OperatorK::Pipe
        } else if self.lines.spells(from, to, "?") {
            OperatorK::Question
        } else if self.lines.spells(from, to, "!") {
            OperatorK::Bang
        } else if self.lines.spells(from, to, "_") {
            OperatorK::Underscore
        } else if self.lines.spells(from, to, "<") {
            OperatorK::LessThan
        } else if self.lines.spells(from, to, ">") {
            OperatorK::GreaterThan
        } else {
            OperatorK::Source
        }
    }

    /// Reads the number whose first digit has just been taken.
    fn take_number(&mut self) -> (kind: TokenK)
        requires
            old(self).wf(),
            1 <= old(self).position(),
        ensures
            final(self).wf(),
            final(self).text() == old(self).text(),
            (kind, final(self).position()) == number_at(
                old(self).text(),
                old(self).position() - 1,
            ),
    {
        self.take_while(CharClass::Digit);
        proof {
            lemma_scan_bounds(old(self).text(), old(self).position(), CharClass::Digit);
        }
        if self.peek_1() == '.' {
            if self.peek_2() == '.' {
                TokenK::Digit(DigitK::Int)
            } else if is_digit(self.peek_2()) {
                let _ = self.take();
                self.take_while(CharClass::Digit);
                TokenK::Digit(DigitK::Float)
            } else {
                let _ = self.take();
                TokenK::Unknown(UnknownK::UnfinishedFloat)
            }
        } else {
            TokenK::Digit(DigitK::Int)
        }
    }

    /// Reads the token whose text starts at the cursor.
    fn take_kind(&mut self) -> (kind: TokenK)
        requires
            old(self).wf(),
        ensures
            final(self).wf(),
            final(self).text() == old(self).text(),
            (kind, final(self).position()) == token_at(old(self).text(), old(self).position()),
    {
        if self.is_eof() {
            return TokenK::Unknown(UnknownK::EndOfFile);
        }
        let from = self.index;
        let c = self.take();
        if c == '(' {
            TokenK::OpenDelimiter(DelimiterK::Round)
        } else if c == '[' {
            TokenK::OpenDelimiter(DelimiterK::Square)
        } else if c == '{' {
            TokenK::OpenDelimiter(DelimiterK::Brace)
        } else if c == ')' {
            TokenK::CloseDelimiter(DelimiterK::Round)
        } else if c == ']' {
            TokenK::CloseDelimiter(DelimiterK::Square)
        } else if c == '}' {
            TokenK::CloseDelimiter(DelimiterK::Brace)
        } else if c == ',' {
            TokenK::Operator(OperatorK::Comma)
        } else if c == '\\' {
            TokenK::Operator(OperatorK::Backslash)
        } else if is_letter_lowercase(c) || (c == '_' && self.peek_1() == '_') {
            self.take_while(CharClass::Identifier);
            proof {
                lemma_scan_bounds(self.text(), from as int + 1, CharClass::Identifier);
            }
            TokenK::Identifier(self.keyword(from, self.index))
        } else if is_letter_uppercase(c) {
            self.take_while(CharClass::Identifier);
            TokenK::Identifier(IdentifierK::Upper)
        } else if is_symbol(c) || is_punctuation(c) {
            self.take_while(CharClass::Operator);
            proof {
                lemma_scan_bounds(self.text(), from as int + 1, CharClass::Operator);
            }
            TokenK::Operator(self.operator(from, self.index))
        } else if is_digit(c) {
            self.take_number()
        } else if c == '\0' {
            TokenK::Unknown(UnknownK::EndOfFile)
        } else {
            TokenK::Unknown(UnknownK::UnknownToken)
        }
    }

    /// Reads the next token: the trivia before it, then its text.
    pub fn take_token(&mut self) -> (token: Token)
        requires
            old(self).wf(),
        ensures
            final(self).wf(),
            final(self).text() == old(self).text(),
            (token, final(self).position()) == next_token(old(self).text(), old(self).position()),
    {
        let comment_begin = self.consumed();
        let unfinished = self.take_trivia();
        let comment_end = self.consumed();
        let begin = self.consumed();
        let kind = if unfinished {
            self.take_rest();
            TokenK::Unknown(UnknownK::UnfinishedComment)
        } else {
            self.take_kind()
        };
        let end = self.consumed();
        Token { comment_begin, comment_end, begin, end, kind, depth: 0 }
    }
}

/// A token ends within the text, and every token but the end-of-file token
/// ends after the place where it was read.
pub proof fn lemma_next_token_bounds(s: Seq<char>, i: int)
    requires
        0 <= i <= s.len(),
    ensures
        i <= next_token(s, i).1 <= s.len(),
        !next_token(s, i).0.is_eof() ==> i < next_token(s, i).1,
        i <= skip_trivia(s, i).0 <= s.len(),
{
    lemma_skip_trivia_bounds(s, i);
    lemma_token_at_bounds(s, skip_trivia(s, i).0);
    lemma_skip_trivia_unfinished(s, i);
}

/// A raw token has depth zero.
pub proof fn lemma_next_token_depth(s: Seq<char>, i: int)
    ensures
        next_token(s, i).0.depth == 0,
{
}

/// Where trivia ends at a comment that is never closed, text is left.
pub proof fn lemma_skip_trivia_unfinished(s: Seq<char>, i: int)
    requires
        0 <= i <= s.len(),
    ensures
        skip_trivia(s, i).1 ==> skip_trivia(s, i).0 < s.len(),
    decreases s.len() - i,
{
    if i < s.len() {
        if s[i] == '-' && char_at(s, i + 1) == '-' {
            let j = scan(s, i, CharClass::NotNewline);
            lemma_scan_bounds(s, i, CharClass::NotNewline);
            if j > i {
                lemma_skip_trivia_unfinished(s, j);
            }
        } else if s[i] == '{' && char_at(s, i + 1) == '-' {
            lemma_block_comment_bounds(s, i);
            match block_comment_end(s, i) {
                Some(j) => {
                    lemma_skip_trivia_unfinished(s, j);
                },
                None => {},
            }
        } else if whitespace(s[i]) {
            let j = scan(s, i, CharClass::Whitespace);
            lemma_scan_bounds(s, i, CharClass::Whitespace);
            if j > i {
                lemma_skip_trivia_unfinished(s, j);
            }
        }
    }
}

} // verus!
