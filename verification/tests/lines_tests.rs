use lily::lines::{decode, same_text, width, Lines};
use lily::parser::group::partition;
use lily::lexer::lex;
use lily::token::{DelimiterK, IdentifierK, LayoutK, OperatorK, Position, Token, TokenK, UnknownK};

#[test]
fn positions_count_lines_and_columns() {
    let lines = Lines::new("ab\ncd\n\nx");
    assert_eq!(lines.get_position(0), Position { line: 1, column: 1 });
    assert_eq!(lines.get_position(1), Position { line: 1, column: 2 });
    assert_eq!(lines.get_position(2), Position { line: 1, column: 3 });
    assert_eq!(lines.get_position(3), Position { line: 2, column: 1 });
    assert_eq!(lines.get_position(6), Position { line: 3, column: 1 });
    assert_eq!(lines.get_position(7), Position { line: 4, column: 1 });
    assert_eq!(lines.get_position(8), Position { line: 4, column: 2 });
    assert_eq!(lines.get_position(100), Position { line: 4, column: 2 });
    assert_eq!(lines.eof_offset(), 8);
    assert_eq!(lines.len(), 8);
}

#[test]
fn positions_go_by_characters_and_offsets_by_bytes() {
    let lines = Lines::new("é€𝄞x");
    assert_eq!(lines.eof_offset(), 10);
    assert_eq!(lines.len(), 4);
    assert_eq!(lines.get_position(2), Position { line: 1, column: 2 });
    assert_eq!(lines.get_position(5), Position { line: 1, column: 3 });
    assert_eq!(lines.get_position(9), Position { line: 1, column: 4 });
    assert_eq!(lines.slice(2, 9), "€𝄞");
    assert_eq!(lines.slice(0, 10), "é€𝄞x");
    assert_eq!(lines.slice(9, 9), "");
    assert_eq!(lines.peek(1), '€');
    assert_eq!(lines.peek(4), '\0');
    assert!(lines.spells(1, 3, "€𝄞"));
    assert!(!lines.spells(1, 3, "€x"));
    assert!(!lines.spells(1, 3, "€"));
}

#[test]
fn widths_are_those_of_utf8() {
    for c in ['\0', 'a', '\u{7f}', '\u{80}', 'é', '\u{7ff}', '\u{800}', '€', '\u{ffff}', '\u{10000}', '𝄞', '\u{10ffff}'] {
        assert_eq!(width(c), c.len_utf8());
    }
    assert_eq!(decode("aé"), vec!['a', 'é']);
    assert!(same_text("->", "->"));
    assert!(!same_text("->", "<-"));
    assert!(!same_text("->", "-"));
}

fn plain(kind: TokenK, depth: usize) -> Token {
    Token { comment_begin: 0, comment_end: 0, begin: 0, end: 0, kind, depth }
}

#[test]
fn token_predicates() {
    let separator = plain(TokenK::Layout(LayoutK::Separator), 0);
    let inner = plain(TokenK::Layout(LayoutK::Separator), 1);
    let eof = plain(TokenK::Unknown(UnknownK::EndOfFile), 0);
    assert!(separator.is_separator_zero());
    assert!(!inner.is_separator_zero());
    assert!(eof.is_eof());
    assert!(!separator.is_eof());
    assert!(plain(TokenK::Identifier(IdentifierK::Infixl), 0).is_infix_identifier());
    assert!(plain(TokenK::Identifier(IdentifierK::Infixr), 0).is_infix_identifier());
    assert!(!plain(TokenK::Identifier(IdentifierK::Lower), 0).is_infix_identifier());
    assert!(plain(TokenK::Identifier(IdentifierK::If), 0).is_expression_end());
    assert!(plain(TokenK::CloseDelimiter(DelimiterK::Round), 0).is_expression_end());
    assert!(!plain(TokenK::Identifier(IdentifierK::If), 0).is_expression_boundary());
    assert!(plain(TokenK::Identifier(IdentifierK::Of), 0).is_expression_boundary());
    assert!(plain(TokenK::Operator(OperatorK::ArrowRight), 0).is_expression_boundary());
    assert!(plain(TokenK::Identifier(IdentifierK::If), 0).is_block_argument());
    assert!(!plain(TokenK::Identifier(IdentifierK::Then), 0).is_block_argument());
    assert!(plain(TokenK::Operator(OperatorK::Comma), 0).is_greater_pattern_boundary());
    assert!(inner.is_ty_boundary());
    assert!(!plain(TokenK::Operator(OperatorK::ArrowRight), 0).is_ty_boundary());
    assert_eq!(separator.with_depth(3).depth, 3);
    assert_eq!(Token::layout(LayoutK::Begin, 5, 2), Token {
        comment_begin: 5,
        comment_end: 5,
        begin: 5,
        end: 5,
        kind: TokenK::Layout(LayoutK::Begin),
        depth: 2,
    });
}

#[test]
fn partition_ends_groups_at_depth_zero_separators() {
    let source = "a = do\n  b\n  c\nd = e\n";
    let tokens = lex(source);
    let groups = partition(&tokens);
    assert_eq!(groups.len(), 2);
    for group in &groups {
        assert!(group.last().unwrap().is_separator_zero());
        for token in &group[..group.len() - 1] {
            assert!(!token.is_separator_zero());
            assert!(!token.is_eof());
        }
    }
    let joined: Vec<Token> = groups.concat();
    assert_eq!(joined[..], tokens[..tokens.len() - 1]);
}

#[test]
fn partition_without_an_end_of_file_keeps_the_rest() {
    let a = plain(TokenK::Identifier(IdentifierK::Lower), 0);
    let separator = plain(TokenK::Layout(LayoutK::Separator), 0);
    let eof = plain(TokenK::Unknown(UnknownK::EndOfFile), 0);
    assert_eq!(partition(&[a, separator, a]), vec![&[a, separator][..], &[a][..]]);
    assert_eq!(partition(&[a, separator, a, eof, a]), vec![&[a, separator][..]]);
    assert!(partition(&[]).is_empty());
    assert!(partition(&[eof]).is_empty());
}
