//! What holds of every token stream that the lexer puts out: its tokens
//! stand in the order of the source, and those that are no layout tokens
//! cover the source.

use crate::lexer::cursor::{next_token, skip_trivia, token_at};
use crate::lexer::layout::Layout;
use crate::lexer::shape::{closed, emitted, is_token, stepped};
use crate::lexer::{
    follows, layout_from, lemma_raw_tokens_tile, lex_of, position_at, raw_tokens, spans_in_order,
    tiles,
};
use crate::lines::byte_len;
use crate::token::{Token, TokenK};
use vstd::prelude::*;

verus! {

/// No token begins or ends earlier than one before it.
pub open spec fn ascending(tokens: Seq<Token>) -> bool {
    forall|i: int, j: int|
        0 <= i <= j < tokens.len() ==> (#[trigger] tokens[i]).begin <= (#[trigger] tokens[j]).begin
            && tokens[i].end <= tokens[j].end
}

/// The tokens are in order and none reaches beyond `limit`.
pub open spec fn settled(tokens: Seq<Token>, limit: int) -> bool {
    &&& ascending(tokens)
    &&& forall|k: int|
        0 <= k < tokens.len() ==> (#[trigger] tokens[k]).begin <= limit && tokens[k].end <= limit
}

/// The tokens that are no layout tokens, in order.
pub open spec fn without_layout(tokens: Seq<Token>) -> Seq<Token>
    decreases tokens.len(),
{
    if tokens.len() == 0 {
        seq![]
    } else if tokens.last().kind is Layout {
        without_layout(tokens.drop_last())
    } else {
        without_layout(tokens.drop_last()).push(tokens.last())
    }
}

/// Each token of `found` is the token of `tokens` in its place, but for
/// its depth.
pub open spec fn same_tokens(found: Seq<Token>, tokens: Seq<Token>) -> bool {
    &&& found.len() == tokens.len()
    &&& forall|k: int| 0 <= k < found.len() ==> is_token(#[trigger] found[k], tokens[k])
}

proof fn lemma_closed_settled(before: Seq<Token>, now: Seq<Token>, offset: usize)
    requires
        closed(before, now, offset),
        settled(before, offset as int),
    ensures
        settled(now, offset as int),
{
    assert forall|k: int| 0 <= k < now.len() implies (#[trigger] now[k]).begin <= offset && now[k].end
        <= offset by {
        if k < before.len() {
            assert(now[k] == before[k]);
        }
    }
    assert forall|i: int, j: int| 0 <= i <= j < now.len() implies (#[trigger] now[i]).begin <= (
    #[trigger] now[j]).begin && now[i].end <= now[j].end by {
        if j < before.len() {
            assert(now[i] == before[i]);
            assert(now[j] == before[j]);
        } else if i < before.len() {
            assert(now[i] == before[i]);
        }
    }
}

/// After the tokens of `front`, which do not reach beyond `from`, one that
/// spans `from` to `to` keeps the order.
proof fn lemma_push_settled(front: Seq<Token>, now: Seq<Token>, from: int, to: int)
    requires
        now.len() > 0,
        front == now.drop_last(),
        settled(front, from),
        from <= now.last().begin <= now.last().end <= to,
    ensures
        settled(now, to),
{
    assert forall|k: int| 0 <= k < now.len() implies (#[trigger] now[k]).begin <= to && now[k].end
        <= to by {
        if k < now.len() - 1 {
            assert(now[k] == front[k]);
        }
    }
    assert forall|i: int, j: int| 0 <= i <= j < now.len() implies (#[trigger] now[i]).begin <= (
    #[trigger] now[j]).begin && now[i].end <= now[j].end by {
        if j < now.len() - 1 {
            assert(now[i] == front[i]);
            assert(now[j] == front[j]);
        } else if i < now.len() - 1 {
            assert(now[i] == front[i]);
        }
    }
}

/// A step keeps the order, where what came before does not reach beyond
/// the start of the token.
pub proof fn lemma_stepped_settled(before: Seq<Token>, now: Seq<Token>, token: Token)
    requires
        stepped(before, now, token),
        settled(before, token.begin as int),
        token.begin <= token.end,
    ensures
        settled(now, token.end as int),
{
    if emitted(before, now, token) {
        lemma_closed_settled(before, now.drop_last(), token.begin);
        lemma_push_settled(now.drop_last(), now, token.begin as int, token.end as int);
    } else {
        let front = now.drop_last();
        lemma_closed_settled(before, front.drop_last(), token.begin);
        lemma_push_settled(front.drop_last(), front, token.begin as int, token.end as int);
        lemma_push_settled(front, now, token.end as int, token.end as int);
    }
}

proof fn lemma_closed_without_layout(before: Seq<Token>, now: Seq<Token>, offset: usize)
    requires
        closed(before, now, offset),
    ensures
        without_layout(now) == without_layout(before),
    decreases now.len(),
{
    if now.len() > before.len() {
        assert(closed(before, now.drop_last(), offset));
        lemma_closed_without_layout(before, now.drop_last(), offset);
    } else {
        assert(now =~= before);
    }
}

/// A step adds the token, and no other that is not a layout token.
pub proof fn lemma_stepped_without_layout(before: Seq<Token>, now: Seq<Token>, token: Token)
    requires
        stepped(before, now, token),
        !(token.kind is Layout),
    ensures
        without_layout(now).len() == without_layout(before).len() + 1,
        without_layout(now).drop_last() == without_layout(before),
        is_token(without_layout(now).last(), token),
{
    if emitted(before, now, token) {
        lemma_closed_without_layout(before, now.drop_last(), token.begin);
        assert(without_layout(now).drop_last() =~= without_layout(before));
    } else {
        let front = now.drop_last();
        lemma_closed_without_layout(before, front.drop_last(), token.begin);
        assert(without_layout(front).drop_last() =~= without_layout(before));
    }
}

/// A raw token is never a layout token.
pub proof fn lemma_raw_token_kind(s: Seq<char>, i: int)
    ensures
        !(next_token(s, i).0.kind is Layout),
{
    let t = skip_trivia(s, i).0;
    assert(!(token_at(s, t).0 is Layout));
}

/// No raw token is a layout token.
pub proof fn lemma_raw_tokens_kind(s: Seq<char>, i: int)
    ensures
        forall|k: int|
            0 <= k < raw_tokens(s, i).len() ==> !((#[trigger] raw_tokens(s, i)[k]).kind is Layout),
    decreases s.len() - i,
{
    let (token, next) = next_token(s, i);
    lemma_raw_token_kind(s, i);
    if !(token.is_eof() || !(i < next <= s.len())) {
        lemma_raw_tokens_kind(s, next);
        let rest = raw_tokens(s, next);
        let all = raw_tokens(s, i);
        assert forall|k: int| 0 <= k < all.len() implies !((#[trigger] all[k]).kind is Layout) by {
            if k > 0 {
                assert(all[k] == rest[k - 1]);
            }
        }
    }
}

proof fn lemma_settled_later(tokens: Seq<Token>, limit: int, later: int)
    requires
        settled(tokens, limit),
        limit <= later,
    ensures
        settled(tokens, later),
{
}

/// The layout of raw tokens that cover the source keeps their order, and
/// keeps them all.
proof fn lemma_layout_from(s: Seq<char>, raw: Seq<Token>, k: int, layout: Layout)
    requires
        0 <= k < raw.len(),
        byte_len(s) <= usize::MAX,
        forall|j: int| 0 <= j < raw.len() ==> spans_in_order(#[trigger] raw[j]),
        forall|j: int| 0 <= j < raw.len() - 1 ==> #[trigger] follows(raw, j),
        forall|j: int| 0 <= j < raw.len() ==> !((#[trigger] raw[j]).kind is Layout),
        same_tokens(without_layout(layout.output), raw.take(k)),
    ensures
        same_tokens(without_layout(layout_from(s, raw, k, layout).output), raw),
        settled(layout.output, raw[k].begin as int) && raw.last().begin == byte_len(s) ==> ascending(
            layout_from(s, raw, k, layout).output,
        ),
    decreases raw.len() - k,
{
    let token = raw[k];
    assert(spans_in_order(token));
    if k + 1 == raw.len() {
        let eof_offset = byte_len(s) as usize;
        let closing = layout.finalize(eof_offset);
        assert(closed(layout.output, layout.output, eof_offset));
        layout.lemma_finalize_closed(layout.output, eof_offset);
        let last = closing.emit_current(token);
        closing.lemma_emit_current_at(layout.output, token, eof_offset);
        lemma_closed_without_layout(layout.output, closing.output, eof_offset);
        assert(last.output.drop_last() =~= closing.output);
        assert(without_layout(last.output) =~= without_layout(layout.output).push(
            last.output.last(),
        ));
        assert(raw.take(k).push(token) =~= raw);
        if settled(layout.output, raw[k].begin as int) && raw.last().begin == byte_len(s) {
            lemma_closed_settled(layout.output, closing.output, eof_offset);
            lemma_push_settled(closing.output, last.output, eof_offset as int, token.end as int);
        }
    } else {
        let next = layout.add_layout(
            token,
            position_at(s, token.begin),
            position_at(s, raw[k + 1].begin),
        );
        layout.lemma_add_layout_stepped(
            token,
            position_at(s, token.begin),
            position_at(s, raw[k + 1].begin),
        );
        lemma_stepped_without_layout(layout.output, next.output, token);
        assert(raw.take(k + 1) =~= raw.take(k).push(token));
        assert(same_tokens(without_layout(next.output), raw.take(k + 1))) by {
            let found = without_layout(next.output);
            assert forall|j: int| 0 <= j < found.len() implies is_token(
                #[trigger] found[j],
                raw.take(k + 1)[j],
            ) by {
                if j < found.len() - 1 {
                    assert(found[j] == found.drop_last()[j]);
                }
            }
        }
        assert(follows(raw, k));
        assert(spans_in_order(raw[k + 1]));
        if settled(layout.output, raw[k].begin as int) {
            lemma_stepped_settled(layout.output, next.output, token);
            lemma_settled_later(next.output, token.end as int, raw[k + 1].begin as int);
        }
        lemma_layout_from(s, raw, k + 1, next);
    }
}

/// In the token stream of a source without a NUL character, each token
/// begins and ends no earlier than the one before it.
pub proof fn lemma_lex_ascending(s: Seq<char>)
    requires
        byte_len(s) <= usize::MAX,
        !s.contains('\0'),
    ensures
        ascending(lex_of(s)),
{
    let raw = raw_tokens(s, 0);
    lemma_raw_tokens_tile(s, 0);
    lemma_raw_tokens_kind(s, 0);
    if !(raw.len() == 1 && raw[0].is_eof()) {
        let initial = Layout::initial(position_at(s, raw[0].begin));
        assert(raw.take(0) =~= Seq::<Token>::empty());
        lemma_layout_from(s, raw, 0, initial);
    }
}

/// The tokens of a source that are no layout tokens are its raw tokens,
/// each with a depth: they cover the source from its first byte on, every
/// byte in the trivia or the text of exactly one of them, and in a source
/// without a NUL character they reach to its end. So the source is the
/// text of these tokens, trivia included, one after the other.
pub proof fn lemma_lex_covers(s: Seq<char>)
    requires
        byte_len(s) <= usize::MAX,
    ensures
        same_tokens(without_layout(lex_of(s)), raw_tokens(s, 0)),
        tiles(without_layout(lex_of(s)), 0),
        without_layout(lex_of(s)).last().is_eof(),
        !s.contains('\0') ==> without_layout(lex_of(s)).last().end == byte_len(s),
{
    let raw = raw_tokens(s, 0);
    lemma_raw_tokens_tile(s, 0);
    lemma_raw_tokens_kind(s, 0);
    crate::lines::lemma_offset_ends(s);
    if raw.len() == 1 && raw[0].is_eof() {
        assert(raw.drop_last() =~= Seq::<Token>::empty());
        assert(without_layout(raw.drop_last()) =~= Seq::<Token>::empty());
        assert(without_layout(raw) =~= seq![raw[0]]);
    } else {
        let initial = Layout::initial(position_at(s, raw[0].begin));
        assert(raw.take(0) =~= Seq::<Token>::empty());
        lemma_layout_from(s, raw, 0, initial);
    }
    let found = without_layout(lex_of(s));
    assert forall|k: int| 0 <= k < found.len() implies spans_in_order(#[trigger] found[k]) by {
        assert(is_token(found[k], raw[k]));
        assert(spans_in_order(raw[k]));
    }
    assert forall|k: int| 0 <= k < found.len() - 1 implies #[trigger] follows(found, k) by {
        assert(follows(raw, k));
        assert(is_token(found[k], raw[k]));
        assert(is_token(found[k + 1], raw[k + 1]));
    }
    assert(is_token(found[0], raw[0]));
    assert(is_token(found.last(), raw.last()));
}

} // verus!
