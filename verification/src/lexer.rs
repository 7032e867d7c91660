//! The lexer: raw tokens, then their layout.

pub mod balance;
pub mod cursor;
pub mod depth;
pub mod layout;
pub mod order;
pub mod shape;

use crate::lexer::balance::{lemma_lex_balance, nested, rooted};
use crate::lexer::cursor::{
    lemma_next_token_bounds, lemma_token_at_bounds, next_token, skip_trivia, Cursor,
};
use crate::lexer::depth::{lemma_lex_depths, leveled};
use crate::lexer::layout::{lemma_indented_count_push, DelimiterK, Layout, LayoutEngine};
use crate::lexer::order::{ascending, lemma_lex_ascending, lemma_lex_covers, without_layout};
use crate::lines::{
    byte_len, byte_offset, lemma_offset_ends, lemma_offset_monotone, position_of, Lines,
};
use crate::token::{Position, Token};
use vstd::prelude::*;

verus! {

/// The raw tokens read from the character `i` on, up to and with the first
/// end-of-file token.
pub open spec fn raw_tokens(s: Seq<char>, i: int) -> Seq<Token>
    decreases s.len() - i,
{
    let (token, next) = next_token(s, i);
    if token.is_eof() || !(i < next <= s.len()) {
        seq![token]
    } else {
        seq![token] + raw_tokens(s, next)
    }
}

/// The position of a byte offset, in machine integers.
pub open spec fn position_at(s: Seq<char>, offset: usize) -> Position {
    let (line, column) = position_of(s, offset as int);
    Position { line: line as usize, column: column as usize }
}

/// The layout of the raw tokens from the `k`-th on: each but the last goes
/// through the engine with its own position and that of its successor; the
/// last, the end-of-file token, comes after what closes the open frames.
pub open spec fn layout_from(s: Seq<char>, raw: Seq<Token>, k: int, layout: Layout) -> Layout
    decreases raw.len() - k,
{
    if k < 0 || k >= raw.len() {
        layout
    } else if k + 1 == raw.len() {
        layout.finalize(byte_len(s) as usize).emit_current(raw[k])
    } else {
        layout_from(
            s,
            raw,
            k + 1,
            layout.add_layout(raw[k], position_at(s, raw[k].begin), position_at(s, raw[k + 1].begin)),
        )
    }
}

/// Whether the source holds nothing but whitespace and comments.
pub open spec fn blank(s: Seq<char>) -> bool {
    raw_tokens(s, 0).len() == 1 && raw_tokens(s, 0)[0].is_eof()
}

/// The tokens of the source `s`, layout tokens among them. A source that
/// holds nothing but whitespace and comments is its end-of-file token alone.
pub open spec fn lex_of(s: Seq<char>) -> Seq<Token> {
    let raw = raw_tokens(s, 0);
    if blank(s) {
        raw
    } else {
        layout_from(s, raw, 0, Layout::initial(position_at(s, raw[0].begin))).output
    }
}

/// Reads the raw tokens of the source, the end-of-file token last.
pub fn lex_raw(cursor: &mut Cursor) -> (tokens: Vec<Token>)
    requires
        old(cursor).wf(),
    ensures
        final(cursor).wf(),
        final(cursor).text() == old(cursor).text(),
        tokens@ == raw_tokens(old(cursor).text(), old(cursor).position()),
        tokens@.len() >= 1,
{
    let mut tokens: Vec<Token> = Vec::new();
    let ghost s = cursor.text();
    proof {
        cursor.lemma_position();
        assert(tokens@ + raw_tokens(s, cursor.position()) =~= raw_tokens(s, cursor.position()));
    }
    loop
        invariant_except_break
            raw_tokens(s, old(cursor).position()) == tokens@ + raw_tokens(s, cursor.position()),
        invariant
            cursor.wf(),
            cursor.text() == s,
            s == old(cursor).text(),
            0 <= cursor.position() <= s.len(),
        ensures
            cursor.wf(),
            cursor.text() == s,
            tokens@ == raw_tokens(s, old(cursor).position()),
            tokens@.len() >= 1,
        decreases s.len() - cursor.position(),
    {
        let ghost before = cursor.position();
        let ghost collected = tokens@;
        proof {
            cursor.lemma_position();
            lemma_next_token_bounds(s, before);
        }
        let token = cursor.take_token();
        tokens.push(token);
        proof {
            cursor.lemma_position();
        }
        if token.is_eof() {
            proof {
                assert(collected + seq![token] =~= tokens@);
            }
            break ;
        }
        proof {
            assert(collected + (seq![token] + raw_tokens(s, cursor.position())) =~= tokens@
                + raw_tokens(s, cursor.position()));
        }
    }
    tokens
}

/// The tokens of `source`: the raw tokens with their layout. Every block is
/// delimited by `Begin` and `End`, its items are parted by `Separator`, and
/// every other token carries the depth of the block it stands in.
///
/// The tokens that are no layout tokens cover the source, and no prefix of
/// the tokens holds more ends than begins and one. In a source without a
/// NUL character the tokens stand in the order of the source. Where no
/// token closes the root frame, no prefix holds more ends than begins, and
/// every token carries the number of blocks that are open at it.
pub fn lex(source: &str) -> (tokens: Vec<Token>)
    requires
        byte_len(source@) < usize::MAX,
    ensures
        tokens@ == lex_of(source@),
        tiles(without_layout(tokens@), 0),
        nested(tokens@, 1),
        !source@.contains('\0') ==> ascending(tokens@),
        rooted(source@) || blank(source@) ==> nested(tokens@, 0) && leveled(tokens@),
{
    proof {
        lemma_lex_covers(source@);
        lemma_lex_balance(source@);
        if !source@.contains('\0') {
            lemma_lex_ascending(source@);
        }
        if rooted(source@) || blank(source@) {
            lemma_lex_depths(source@);
        }
    }
    let mut cursor = Cursor::new(source);
    let input_tokens = lex_raw(&mut cursor);
    if input_tokens.len() == 1 && input_tokens[0].is_eof() {
        return input_tokens;
    }
    let lines = cursor.lines();
    let ghost s = source@;
    let ghost raw = input_tokens@;
    let initial_position = lines.get_position(input_tokens[0].begin);
    let mut output_tokens: Vec<Token> = Vec::new();
    let mut layout_engine = LayoutEngine::new(initial_position);
    let mut index: usize = 0;
    proof {
        lemma_indented_count_push(Seq::empty(), (initial_position, DelimiterK::MaskRoot));
        assert(Layout::initial(initial_position).wf());
    }
    while index + 1 < input_tokens.len()
        invariant
            lines.wf(),
            lines@ == s,
            input_tokens@ == raw,
            raw.len() >= 1,
            index < input_tokens.len(),
            layout_engine.with(output_tokens@).wf(),
            layout_from(s, raw, 0, Layout::initial(initial_position)) == layout_from(
                s,
                raw,
                index as int,
                layout_engine.with(output_tokens@),
            ),
        decreases input_tokens.len() - index,
    {
        let token = input_tokens[index];
        let now_position = lines.get_position(token.begin);
        let next_position = lines.get_position(input_tokens[index + 1].begin);
        layout_engine.add_layout(&mut output_tokens, token, now_position, next_position);
        index += 1;
    }
    let token = input_tokens[index];
    layout_engine.finalize_layout(&mut output_tokens, lines.eof_offset());
    output_tokens.push(token.with_depth(layout_engine.depth()));
    output_tokens
}

/// The spans of a token are in order: its trivia, then its text, with
/// nothing between them.
pub open spec fn spans_in_order(token: Token) -> bool {
    token.comment_begin <= token.comment_end && token.comment_end == token.begin && token.begin
        <= token.end
}

/// The tokens cover the bytes from `from` on without a gap or an overlap:
/// the first starts at `from`, and each starts where the one before ends.
pub open spec fn tiles(tokens: Seq<Token>, from: int) -> bool {
    &&& tokens.len() > 0
    &&& tokens[0].comment_begin == from
    &&& forall|k: int| 0 <= k < tokens.len() ==> spans_in_order(#[trigger] tokens[k])
    &&& forall|k: int| 0 <= k < tokens.len() - 1 ==> #[trigger] follows(tokens, k)
}

/// The token after the `k`-th starts where the `k`-th ends.
pub open spec fn follows(tokens: Seq<Token>, k: int) -> bool {
    tokens[k + 1].comment_begin == tokens[k].end
}

/// A token read at the character `i` starts its trivia at the offset of
/// `i`, ends at the offset of the character where the next one is read, and
/// has its spans in order.
pub proof fn lemma_next_token_spans(s: Seq<char>, i: int)
    requires
        0 <= i <= s.len(),
        byte_len(s) <= usize::MAX,
    ensures
        next_token(s, i).0.comment_begin == byte_offset(s, i),
        next_token(s, i).0.end == byte_offset(s, next_token(s, i).1),
        spans_in_order(next_token(s, i).0),
        next_token(s, i).0.end <= byte_len(s),
        next_token(s, i).0.is_eof() && !s.contains('\0') ==> next_token(s, i).0.begin == byte_len(
            s,
        ),
{
    lemma_next_token_bounds(s, i);
    let t = skip_trivia(s, i).0;
    let j = next_token(s, i).1;
    lemma_token_at_bounds(s, t);
    lemma_offset_ends(s);
    lemma_offset_monotone(s, i, t);
    lemma_offset_monotone(s, t, j);
    lemma_offset_monotone(s, j, s.len() as int);
    if next_token(s, i).0.is_eof() && !s.contains('\0') {
        if t < s.len() {
            assert(s.contains(s[t]));
        }
    }
}

/// The raw tokens cover the source from the place where they are read:
/// every byte belongs to the trivia or the text of exactly one token. The
/// last token, and no other, is the end-of-file token; in a source without
/// a NUL character it stands at the end of the text.
pub proof fn lemma_raw_tokens_tile(s: Seq<char>, i: int)
    requires
        0 <= i <= s.len(),
        byte_len(s) <= usize::MAX,
    ensures
        tiles(raw_tokens(s, i), byte_offset(s, i) as int),
        raw_tokens(s, i).last().is_eof(),
        forall|k: int| 0 <= k < raw_tokens(s, i).len() - 1 ==> !(#[trigger] raw_tokens(s, i)[k]).is_eof(),
        raw_tokens(s, i).last().end <= byte_len(s),
        !s.contains('\0') ==> raw_tokens(s, i).last().begin == byte_len(s) && raw_tokens(
            s,
            i,
        ).last().end == byte_len(s),
    decreases s.len() - i,
{
    let (token, next) = next_token(s, i);
    lemma_next_token_bounds(s, i);
    lemma_next_token_spans(s, i);
    if !token.is_eof() {
        lemma_raw_tokens_tile(s, next);
        let rest = raw_tokens(s, next);
        let all = raw_tokens(s, i);
        assert(all =~= seq![token] + rest);
        assert forall|k: int| 0 <= k < all.len() implies spans_in_order(#[trigger] all[k]) by {
            if k > 0 {
                assert(all[k] == rest[k - 1]);
            }
        }
        assert forall|k: int| 0 <= k < all.len() - 1 implies #[trigger] follows(all, k) by {
            if k > 0 {
                assert(follows(rest, k - 1));
                assert(all[k] == rest[k - 1]);
                assert(all[k + 1] == rest[k]);
            } else {
                assert(all[1] == rest[0]);
            }
        }
        assert forall|k: int| 0 <= k < all.len() - 1 implies !(#[trigger] all[k]).is_eof() by {
            if k > 0 {
                assert(all[k] == rest[k - 1]);
            }
        }
        assert(all.last() == rest.last());
    }
}

} // verus!
