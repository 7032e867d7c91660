//! Character classes. Which characters are letters, numbers, symbols and
//! punctuation is decided by the Unicode tables of `unicode_categories`; which
//! are whitespace, by the standard library. Both are taken on trust: the
//! library knows each class by name only.

use unicode_categories::UnicodeCategories;
use vstd::prelude::*;

verus! {

/// Whether `c` is in the Unicode category "Letter, Lowercase".
pub uninterp spec fn letter_lowercase(c: char) -> bool;

/// Whether `c` is in the Unicode category "Letter, Uppercase".
pub uninterp spec fn letter_uppercase(c: char) -> bool;

/// Whether `c` is in one of the Unicode letter categories.
pub uninterp spec fn letter(c: char) -> bool;

/// Whether `c` is in one of the Unicode number categories.
pub uninterp spec fn number(c: char) -> bool;

/// Whether `c` is in one of the Unicode symbol categories.
pub uninterp spec fn symbol(c: char) -> bool;

/// Whether `c` is in one of the Unicode punctuation categories.
pub uninterp spec fn punctuation(c: char) -> bool;

/// Whether `c` has the Unicode property White_Space.
pub uninterp spec fn whitespace(c: char) -> bool;

/// `UnicodeCategories::is_letter_lowercase`: a lookup of `c` in the table of
/// the category Ll, so the answer depends on `c` alone.
#[verifier::external_body]
pub(crate) fn is_letter_lowercase(c: char) -> (r: bool)
    ensures
        r == letter_lowercase(c),
{
    c.is_letter_lowercase()
}

/// `UnicodeCategories::is_letter_uppercase`: a lookup of `c` in the table of
/// the category Lu.
#[verifier::external_body]
pub(crate) fn is_letter_uppercase(c: char) -> (r: bool)
    ensures
        r == letter_uppercase(c),
{
    c.is_letter_uppercase()
}

/// `UnicodeCategories::is_letter`: whether `c` is in one of the tables of
/// the categories Ll, Lm, Lo, Lt and Lu.
#[verifier::external_body]
pub(crate) fn is_letter(c: char) -> (r: bool)
    ensures
        r == letter(c),
{
    c.is_letter()
}

/// `UnicodeCategories::is_number`: whether `c` is in one of the tables of
/// the categories Nd, Nl and No.
#[verifier::external_body]
pub(crate) fn is_number(c: char) -> (r: bool)
    ensures
        r == number(c),
{
    c.is_number()
}

/// `UnicodeCategories::is_symbol`: whether `c` is in one of the tables of
/// the categories Sc, Sk, Sm and So.
#[verifier::external_body]
pub(crate) fn is_symbol(c: char) -> (r: bool)
    ensures
        r == symbol(c),
{
    c.is_symbol()
}

/// `UnicodeCategories::is_punctuation`: whether `c` is in one of the tables
/// of the categories Pc, Pd, Pe, Pf, Pi, Po and Ps.
#[verifier::external_body]
pub(crate) fn is_punctuation(c: char) -> (r: bool)
    ensures
        r == punctuation(c),
{
    c.is_punctuation()
}

/// `char::is_whitespace`: whether `c` has the property White_Space.
#[verifier::external_body]
pub(crate) fn is_whitespace(c: char) -> (r: bool)
    ensures
        r == whitespace(c),
{
    c.is_whitespace()
}

/// Whether `c` is one of the ASCII digits.
pub open spec fn digit(c: char) -> bool {
    '0' <= c && c <= '9'
}

/// Whether `c` is one of the ASCII digits.
pub fn is_digit(c: char) -> (r: bool)
    ensures
        r == digit(c),
{
    '0' <= c && c <= '9'
}

/// Whether `c` is a token by itself wherever it stands: one of the six
/// bracket characters, the comma or the backslash.
pub open spec fn solitary(c: char) -> bool {
    c == '(' || c == ')' || c == '{' || c == '}' || c == '[' || c == ']' || c == ',' || c == '\\'
}

/// Whether `c` is a token by itself wherever it stands.
pub fn is_solitary(c: char) -> (r: bool)
    ensures
        r == solitary(c),
{
    c == '(' || c == ')' || c == '{' || c == '}' || c == '[' || c == ']' || c == ',' || c == '\\'
}

/// The runs of characters that the lexer consumes as a whole.
#[derive(Debug, Clone, Copy, PartialEq, Eq, Structural)]
pub enum CharClass {
    /// Anything but a newline: the rest of a line comment.
    NotNewline,
    Whitespace,
    /// Letters, numbers, `'` and `_`: the tail of an identifier.
    Identifier,
    /// Symbols and punctuation other than brackets, commas and
    /// backslashes: an operator.
    Operator,
    Digit,
}

/// Whether `c` belongs to runs of `class`.
pub open spec fn in_class(class: CharClass, c: char) -> bool {
    match class {
        CharClass::NotNewline => c != '\n',
        CharClass::Whitespace => whitespace(c),
        CharClass::Identifier => letter(c) || number(c) || c == '\'' || c == '_',
        CharClass::Operator => !solitary(c) && (symbol(c) || punctuation(c)),
        CharClass::Digit => digit(c),
    }
}

/// Whether `c` belongs to runs of `class`.
pub fn is_in_class(class: CharClass, c: char) -> (r: bool)
    ensures
        r == in_class(class, c),
{
    match class {
        CharClass::NotNewline => c != '\n',
        CharClass::Whitespace => is_whitespace(c),
        CharClass::Identifier => is_letter(c) || is_number(c) || c == '\'' || c == '_',
        CharClass::Operator => !is_solitary(c) && (is_symbol(c) || is_punctuation(c)),
        CharClass::Digit => is_digit(c),
    }
}

} // verus!
