use lily::lexer::cursor::Cursor;
use lily::token::{DigitK, IdentifierK, OperatorK, Token, TokenK, UnknownK};

fn token(comment_begin: usize, comment_end: usize, begin: usize, end: usize, kind: TokenK) -> Token {
    Token { comment_begin, comment_end, begin, end, kind, depth: 0 }
}

#[test]
fn cursor_double_period_after_int() {
    let source = "1..2";
    let mut cursor = Cursor::new(source);
    assert_eq!(cursor.take_token(), token(0, 0, 0, 1, TokenK::Digit(DigitK::Int)));
    assert_eq!(cursor.take_token(), token(1, 1, 1, 3, TokenK::Operator(OperatorK::Source)));
    assert_eq!(cursor.take_token(), token(3, 3, 3, 4, TokenK::Digit(DigitK::Int)));
    assert_eq!(cursor.take_token(), token(4, 4, 4, 4, TokenK::Unknown(UnknownK::EndOfFile)));
}

#[test]
fn cursor_block_comment_in_between() {
    let source = "1 {-hello-} 2";
    let mut cursor = Cursor::new(source);
    assert_eq!(cursor.take_token(), token(0, 0, 0, 1, TokenK::Digit(DigitK::Int)));
    assert_eq!(cursor.take_token(), token(1, 12, 12, 13, TokenK::Digit(DigitK::Int)));
    assert_eq!(cursor.take_token(), token(13, 13, 13, 13, TokenK::Unknown(UnknownK::EndOfFile)));
}

#[test]
fn cursor_underscore_disambiguation() {
    let source = "__";
    let mut cursor = Cursor::new(source);
    assert_eq!(cursor.take_token(), token(0, 0, 0, 2, TokenK::Identifier(IdentifierK::Lower)));
    assert_eq!(cursor.take_token(), token(2, 2, 2, 2, TokenK::Unknown(UnknownK::EndOfFile)));
}

#[test]
fn cursor_lone_underscore_is_an_operator() {
    let mut cursor = Cursor::new("_ x");
    assert_eq!(cursor.take_token(), token(0, 0, 0, 1, TokenK::Operator(OperatorK::Underscore)));
    assert_eq!(cursor.take_token(), token(1, 2, 2, 3, TokenK::Identifier(IdentifierK::Lower)));
}

#[test]
fn cursor_floats() {
    let mut cursor = Cursor::new("1.25 3. 4");
    assert_eq!(cursor.take_token(), token(0, 0, 0, 4, TokenK::Digit(DigitK::Float)));
    assert_eq!(cursor.take_token(), token(4, 5, 5, 7, TokenK::Unknown(UnknownK::UnfinishedFloat)));
    assert_eq!(cursor.take_token(), token(7, 8, 8, 9, TokenK::Digit(DigitK::Int)));
}

#[test]
fn cursor_keywords_and_operators() {
    let source = "ado as case do else if in infixl infixr let of then type other Upper -> <- = : . | ? ! < > >>= ,\\";
    let mut cursor = Cursor::new(source);
    let expected = [
        TokenK::Identifier(IdentifierK::Ado),
        TokenK::Identifier(IdentifierK::As),
        TokenK::Identifier(IdentifierK::Case),
        TokenK::Identifier(IdentifierK::Do),
        TokenK::Identifier(IdentifierK::Else),
        TokenK::Identifier(IdentifierK::If),
        TokenK::Identifier(IdentifierK::In),
        TokenK::Identifier(IdentifierK::Infixl),
        TokenK::Identifier(IdentifierK::Infixr),
        TokenK::Identifier(IdentifierK::Let),
        TokenK::Identifier(IdentifierK::Of),
        TokenK::Identifier(IdentifierK::Then),
        TokenK::Identifier(IdentifierK::Type),
        TokenK::Identifier(IdentifierK::Lower),
        TokenK::Identifier(IdentifierK::Upper),
        TokenK::Operator(OperatorK::ArrowRight),
        TokenK::Operator(OperatorK::ArrowLeft),
        TokenK::Operator(OperatorK::Equal),
        TokenK::Operator(OperatorK::Colon),
        TokenK::Operator(OperatorK::Period),
        TokenK::Operator(OperatorK::Pipe),
        TokenK::Operator(OperatorK::Question),
        TokenK::Operator(OperatorK::Bang),
        TokenK::Operator(OperatorK::LessThan),
        TokenK::Operator(OperatorK::GreaterThan),
        TokenK::Operator(OperatorK::Source),
        TokenK::Operator(OperatorK::Comma),
        TokenK::Operator(OperatorK::Backslash),
        TokenK::Unknown(UnknownK::EndOfFile),
    ];
    for kind in expected {
        assert_eq!(cursor.take_token().kind, kind);
    }
}

#[test]
fn cursor_comma_and_backslash_stand_alone() {
    let mut cursor = Cursor::new("_, +\\x");
    let expected = [
        TokenK::Operator(OperatorK::Underscore),
        TokenK::Operator(OperatorK::Comma),
        TokenK::Operator(OperatorK::Source),
        TokenK::Operator(OperatorK::Backslash),
        TokenK::Identifier(IdentifierK::Lower),
    ];
    for kind in expected {
        assert_eq!(cursor.take_token().kind, kind);
    }
}

#[test]
fn cursor_line_comment_is_trivia() {
    let mut cursor = Cursor::new("a -- note\nb");
    assert_eq!(cursor.take_token(), token(0, 0, 0, 1, TokenK::Identifier(IdentifierK::Lower)));
    assert_eq!(cursor.take_token(), token(1, 10, 10, 11, TokenK::Identifier(IdentifierK::Lower)));
    assert_eq!(cursor.take_token(), token(11, 11, 11, 11, TokenK::Unknown(UnknownK::EndOfFile)));
}

#[test]
fn cursor_unfinished_comment_runs_to_the_end() {
    let mut cursor = Cursor::new("a {- never closed");
    assert_eq!(cursor.take_token(), token(0, 0, 0, 1, TokenK::Identifier(IdentifierK::Lower)));
    assert_eq!(
        cursor.take_token(),
        token(1, 2, 2, 17, TokenK::Unknown(UnknownK::UnfinishedComment))
    );
    assert_eq!(cursor.take_token(), token(17, 17, 17, 17, TokenK::Unknown(UnknownK::EndOfFile)));
    assert_eq!(cursor.take_token(), token(17, 17, 17, 17, TokenK::Unknown(UnknownK::EndOfFile)));
}

#[test]
fn cursor_offsets_count_bytes() {
    // 'é' takes two bytes, '€' three, '𝄞' four.
    let mut cursor = Cursor::new("é € 𝄞 x");
    assert_eq!(cursor.take_token(), token(0, 0, 0, 2, TokenK::Identifier(IdentifierK::Lower)));
    assert_eq!(cursor.take_token(), token(2, 3, 3, 6, TokenK::Operator(OperatorK::Source)));
    assert_eq!(cursor.take_token(), token(6, 7, 7, 11, TokenK::Operator(OperatorK::Source)));
    assert_eq!(cursor.take_token(), token(11, 12, 12, 13, TokenK::Identifier(IdentifierK::Lower)));
}

#[test]
fn cursor_nul_ends_the_input() {
    let mut cursor = Cursor::new("a\0b");
    assert_eq!(cursor.take_token(), token(0, 0, 0, 1, TokenK::Identifier(IdentifierK::Lower)));
    assert_eq!(cursor.take_token(), token(1, 1, 1, 2, TokenK::Unknown(UnknownK::EndOfFile)));
}

#[test]
fn cursor_unknown_token() {
    // A control character is in none of the classes.
    let mut cursor = Cursor::new("\u{1}");
    assert_eq!(cursor.take_token(), token(0, 0, 0, 1, TokenK::Unknown(UnknownK::UnknownToken)));
}

#[test]
fn cursor_identifiers_take_letters_numbers_primes_and_underscores() {
    let mut cursor = Cursor::new("x1'_Y2 Z_3' a+b");
    assert_eq!(cursor.take_token(), token(0, 0, 0, 6, TokenK::Identifier(IdentifierK::Lower)));
    assert_eq!(cursor.take_token(), token(6, 7, 7, 11, TokenK::Identifier(IdentifierK::Upper)));
    assert_eq!(cursor.take_token(), token(11, 12, 12, 13, TokenK::Identifier(IdentifierK::Lower)));
    assert_eq!(cursor.take_token(), token(13, 13, 13, 14, TokenK::Operator(OperatorK::Source)));
    assert_eq!(cursor.take_token(), token(14, 14, 14, 15, TokenK::Identifier(IdentifierK::Lower)));
}

#[test]
fn cursor_block_comment_may_end_at_once() {
    let mut cursor = Cursor::new("{-} a {--} b");
    assert_eq!(cursor.take_token(), token(0, 4, 4, 5, TokenK::Identifier(IdentifierK::Lower)));
    assert_eq!(cursor.take_token(), token(5, 11, 11, 12, TokenK::Identifier(IdentifierK::Lower)));
}
