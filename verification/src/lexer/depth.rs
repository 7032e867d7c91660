//! The depth of a token is the number of blocks that are open at it.
//!
//! This holds of every token that the engine puts out while the root frame
//! is open: a `Begin` carries the depth of the block it opens, an `End` and
//! a `Separator` that of the block they stand in, and every other token
//! that of the innermost block around it.

use crate::lexer::balance::{
    count_layout, lemma_count_push, lemma_root_count, lemma_root_count_push, poised, root_count,
    rooted, layout_before_end,
};
use crate::lexer::cursor::lemma_next_token_bounds;
use crate::lexer::cursor::next_token;
use crate::lexer::layout::{
    determine_end, indented_count, lemma_determine_end, lemma_indented_count_push, one_less,
    DelimiterK, EndRule, Layout,
};
use crate::lexer::order::lemma_raw_tokens_kind;
use crate::lexer::{blank, layout_from, lex_of, position_at, raw_tokens};
use crate::lines::byte_len;
use crate::token::{LayoutK, Position, Token, TokenK};
use vstd::prelude::*;

verus! {

/// The number of blocks that are open after `tokens`: the begins that no
/// end has closed.
pub open spec fn open_after(tokens: Seq<Token>) -> int {
    count_layout(tokens, LayoutK::Begin) - count_layout(tokens, LayoutK::End)
}

/// The `k`-th token carries the number of blocks that are open at it: a
/// begin with the block that it opens, every other token without.
pub open spec fn depth_fits(tokens: Seq<Token>, k: int) -> bool {
    tokens[k].depth == open_after(tokens.take(k)) + if tokens[k].kind == TokenK::Layout(
        LayoutK::Begin,
    ) {
        1int
    } else {
        0int
    }
}

/// Every token carries the number of blocks that are open at it.
pub open spec fn leveled(tokens: Seq<Token>) -> bool {
    forall|k: int| 0 <= k < tokens.len() ==> #[trigger] depth_fits(tokens, k)
}

/// The depth of the engine is the number of blocks that its output has
/// open, and its output is leveled.
pub open spec fn level(layout: Layout) -> bool {
    layout.depth == open_after(layout.output) && leveled(layout.output)
}

/// A token that fits after leveled tokens leaves them leveled.
pub proof fn lemma_leveled_push(tokens: Seq<Token>, token: Token)
    requires
        leveled(tokens),
        token.depth == open_after(tokens) + if token.kind == TokenK::Layout(LayoutK::Begin) {
            1int
        } else {
            0int
        },
    ensures
        leveled(tokens.push(token)),
{
    let now = tokens.push(token);
    assert forall|k: int| 0 <= k < now.len() implies #[trigger] depth_fits(now, k) by {
        if k < tokens.len() {
            assert(depth_fits(tokens, k));
            assert(now.take(k) =~= tokens.take(k));
        } else {
            assert(now.take(k) =~= tokens);
        }
    }
}

impl Layout {
    /// A token that is neither a begin nor an end, at the depth of the
    /// engine.
    pub proof fn lemma_emit_level(self, token: Token)
        requires
            level(self),
            token.depth == self.depth,
            token.kind != TokenK::Layout(LayoutK::Begin),
            token.kind != TokenK::Layout(LayoutK::End),
        ensures
            level(self.emit(token)),
    {
        lemma_count_push(self.output, token, LayoutK::Begin);
        lemma_count_push(self.output, token, LayoutK::End);
        lemma_leveled_push(self.output, token);
    }

    /// A begin carries the depth of the block that it opens.
    pub proof fn lemma_add_begin_level(self, token: Token, next: Position, delimiter: DelimiterK)
        requires
            level(self),
            self.depth < usize::MAX,
        ensures
            level(self.add_begin(token, next, delimiter)),
    {
        let after = self.add_begin(token, next, delimiter);
        if after.output.len() > self.output.len() {
            let begin = Token::layout(LayoutK::Begin, token.end, (self.depth + 1) as usize);
            lemma_count_push(self.output, begin, LayoutK::Begin);
            lemma_count_push(self.output, begin, LayoutK::End);
            lemma_leveled_push(self.output, begin);
        }
    }

    /// A separator carries the depth of the block that it stands in.
    pub proof fn lemma_add_separator_level(self, token: Token, now: Position)
        requires
            level(self),
        ensures
            level(self.add_separator(token, now)),
    {
        if self.delimiters.len() > 0 {
            self.lemma_emit_level(Token::layout(LayoutK::Separator, token.begin, self.depth));
        }
    }

    /// Ending `make_n` of the blocks that are open.
    pub proof fn lemma_push_ends_level(self, token: Token, make_n: nat)
        requires
            level(self),
            self.depth >= make_n,
        ensures
            level(self.push_ends(token, make_n)),
            self.push_ends(token, make_n).depth == self.depth - make_n,
        decreases make_n,
    {
        if make_n > 0 {
            let separator = Token::layout(LayoutK::Separator, token.begin, self.depth);
            let end = Token::layout(LayoutK::End, token.begin, self.depth);
            lemma_count_push(self.output, separator, LayoutK::Begin);
            lemma_count_push(self.output, separator, LayoutK::End);
            lemma_leveled_push(self.output, separator);
            lemma_count_push(self.output.push(separator), end, LayoutK::Begin);
            lemma_count_push(self.output.push(separator), end, LayoutK::End);
            lemma_leveled_push(self.output.push(separator), end);
            self.push_end(token).lemma_push_ends_level(token, (make_n - 1) as nat);
        }
    }

    /// Closing frames other than the root keeps the depth in step.
    pub proof fn lemma_commit_level(self, token: Token, rule: EndRule)
        requires
            poised(self),
            level(self),
            root_count(self.commit(token, determine_end(self.delimiters, rule)).delimiters) == 1,
        ensures
            level(self.commit(token, determine_end(self.delimiters, rule))),
            self.commit(token, determine_end(self.delimiters, rule)).depth <= self.depth,
    {
        let ends = determine_end(self.delimiters, rule);
        lemma_determine_end(self.delimiters, rule);
        let kept = self.truncate(ends.0);
        assert(kept.delimiters =~= self.delimiters.take(ends.0 as int)) by {
            assert(self.delimiters.take(self.delimiters.len() as int) =~= self.delimiters);
        }
        kept.lemma_push_ends_delimiters(token, ends.1);
        lemma_root_count(self.delimiters, ends.0 as int);
        lemma_root_count(kept.delimiters, 0);
        kept.lemma_push_ends_level(token, ends.1);
    }

    /// Ending blocks leaves the stack alone.
    pub proof fn lemma_push_ends_delimiters(self, token: Token, make_n: nat)
        ensures
            self.push_ends(token, make_n).delimiters == self.delimiters,
        decreases make_n,
    {
        if make_n > 0 {
            self.push_end(token).lemma_push_ends_delimiters(token, (make_n - 1) as nat);
        }
    }

    /// A plain token that leaves the root frame open carries the depth of the
    /// block around it.
    pub proof fn lemma_add_plain_level(self, token: Token, now: Position)
        requires
            poised(self),
            level(self),
            !(token.kind is Layout),
            root_count(self.add_plain(token, now).delimiters) == 1,
        ensures
            level(self.add_plain(token, now)),
            level(self.add_end(token, now).add_separator(token, now)),
            self.add_plain(token, now).depth <= self.depth,
    {
        let ends = determine_end(self.delimiters, EndRule::Offside(now.column));
        let closed = self.add_end(token, now);
        let separated = closed.add_separator(token, now);
        self.lemma_commit_poised(token, EndRule::Offside(now.column));
        lemma_root_count_push(closed.delimiters, (now, DelimiterK::MaskPat));
        self.lemma_commit_level(token, EndRule::Offside(now.column));
        closed.lemma_add_separator_level(token, now);
        separated.lemma_emit_level(token.with_depth(separated.depth));
    }

    /// One step of the engine that leaves the root frame open keeps the
    /// depth in step.
    pub proof fn lemma_add_layout_level(self, token: Token, now: Position, next: Position)
        requires
            poised(self),
            level(self),
            !(token.kind is Layout),
            self.depth < usize::MAX,
            root_count(self.add_layout(token, now, next).delimiters) == 1,
        ensures
            level(self.add_layout(token, now, next)),
    {
        let plain = self.add_plain(token, now);
        let separated = self.add_end(token, now).add_separator(token, now);
        self.lemma_add_plain_poised(token, now);
        match token.kind {
            TokenK::Operator(crate::token::OperatorK::Bang)
            | TokenK::Operator(crate::token::OperatorK::Pipe)
            | TokenK::Operator(crate::token::OperatorK::Question) => {
                lemma_root_count_push(self.delimiters, (next, DelimiterK::MaskTop));
                self.lemma_emit_level(token.with_depth(self.depth));
                self.emit_current(token).lemma_add_begin_level(token, next, DelimiterK::MaskTop);
            },
            TokenK::Identifier(crate::token::IdentifierK::Case) => {
                lemma_root_count_push(separated.delimiters, (now, DelimiterK::KwCase));
                self.lemma_add_plain_level(token, now);
                separated.push(now, DelimiterK::KwCase).lemma_emit_level(
                    token.with_depth(separated.depth),
                );
            },
            TokenK::Operator(crate::token::OperatorK::Backslash) => {
                lemma_root_count_push(separated.delimiters, (now, DelimiterK::MaskLam));
                self.lemma_add_plain_level(token, now);
                separated.push(now, DelimiterK::MaskLam).lemma_emit_level(
                    token.with_depth(separated.depth),
                );
            },
            TokenK::Identifier(crate::token::IdentifierK::If) => {
                lemma_root_count_push(separated.delimiters, (now, DelimiterK::KwIf));
                self.lemma_add_plain_level(token, now);
                separated.push(now, DelimiterK::KwIf).lemma_emit_level(
                    token.with_depth(separated.depth),
                );
            },
            TokenK::Identifier(crate::token::IdentifierK::Ado) => {
                lemma_root_count_push(plain.delimiters, (next, DelimiterK::KwAdo));
                self.lemma_add_plain_level(token, now);
                plain.lemma_add_begin_level(token, next, DelimiterK::KwAdo);
            },
            TokenK::Identifier(crate::token::IdentifierK::Do) => {
                lemma_root_count_push(plain.delimiters, (next, DelimiterK::KwDo));
                self.lemma_add_plain_level(token, now);
                plain.lemma_add_begin_level(token, next, DelimiterK::KwDo);
            },
            TokenK::Identifier(crate::token::IdentifierK::Let) => {
                lemma_root_count_push(plain.delimiters, (next, DelimiterK::KwLetStmt));
                lemma_root_count_push(plain.delimiters, (next, DelimiterK::KwLetExpr));
                self.lemma_add_plain_level(token, now);
                plain.lemma_add_begin_level(token, next, DelimiterK::KwLetStmt);
                plain.lemma_add_begin_level(token, next, DelimiterK::KwLetExpr);
            },
            TokenK::Identifier(crate::token::IdentifierK::Of) => {
                let ends = determine_end(self.delimiters, EndRule::Indented);
                let closed = self.commit(token, ends);
                self.lemma_commit_poised(token, EndRule::Indented);
                if self.top_after(ends) == Some(DelimiterK::KwCase) {
                    let popped = closed.pop();
                    let emitted = popped.emit_current(token);
                    let begun = emitted.add_begin(token, next, DelimiterK::KwOf);
                    lemma_root_count_push(emitted.delimiters, (next, DelimiterK::KwOf));
                    lemma_root_count_push(begun.delimiters, (next, DelimiterK::MaskPat));
                    self.lemma_commit_level(token, EndRule::Indented);
                    popped.lemma_emit_level(token.with_depth(popped.depth));
                    emitted.lemma_add_begin_level(token, next, DelimiterK::KwOf);
                } else {
                    closed.lemma_add_plain_poised(token, now);
                    let offside = determine_end(closed.delimiters, EndRule::Offside(now.column));
                    lemma_determine_end(closed.delimiters, EndRule::Offside(now.column));
                    closed.truncate(offside.0).lemma_push_ends_delimiters(token, offside.1);
                    lemma_root_count(closed.delimiters, offside.0 as int);
                    lemma_root_count_push(
                        closed.add_end(token, now).delimiters,
                        (now, DelimiterK::MaskPat),
                    );
                    assert(closed.truncate(offside.0).delimiters =~= closed.delimiters.take(
                        offside.0 as int,
                    )) by {
                        assert(closed.delimiters.take(closed.delimiters.len() as int)
                            =~= closed.delimiters);
                    }
                    self.lemma_commit_level(token, EndRule::Indented);
                    closed.lemma_add_plain_level(token, now);
                }
            },
            TokenK::Operator(crate::token::OperatorK::ArrowRight) => {
                let rule = EndRule::Arrow(now.column);
                let closed = self.commit(token, determine_end(self.delimiters, rule));
                self.lemma_commit_poised(token, rule);
                let condition = if closed.top() == Some(DelimiterK::KwIf) {
                    closed.pop()
                } else {
                    closed
                };
                let mask = if condition.top() == Some(DelimiterK::MaskLam) || condition.top()
                    == Some(DelimiterK::MaskPat) {
                    condition.pop()
                } else {
                    condition
                };
                let _ = closed.lemma_pop_roots();
                let _ = condition.lemma_pop_roots();
                self.lemma_commit_level(token, rule);
                mask.lemma_emit_level(token.with_depth(mask.depth));
            },
            TokenK::Identifier(crate::token::IdentifierK::Then) => {
                let ends = determine_end(self.delimiters, EndRule::Indented);
                if self.top_after(ends) == Some(DelimiterK::KwIf) {
                    let closed = self.commit(token, ends);
                    self.lemma_commit_poised(token, EndRule::Indented);
                    lemma_root_count_push(closed.pop().delimiters, (now, DelimiterK::KwThen));
                    self.lemma_commit_level(token, EndRule::Indented);
                    closed.pop().push(now, DelimiterK::KwThen).lemma_emit_level(
                        token.with_depth(closed.depth),
                    );
                } else {
                    self.lemma_add_plain_level(token, now);
                }
            },
            TokenK::Identifier(crate::token::IdentifierK::Else) => {
                let ends = determine_end(self.delimiters, EndRule::Indented);
                if self.top_after(ends) == Some(DelimiterK::KwThen) {
                    let closed = self.commit(token, ends);
                    self.lemma_commit_poised(token, EndRule::Indented);
                    self.lemma_commit_level(token, EndRule::Indented);
                    closed.pop().lemma_emit_level(token.with_depth(closed.depth));
                } else {
                    self.lemma_add_plain_level(token, now);
                }
            },
            TokenK::Identifier(crate::token::IdentifierK::In) => {
                let ends = determine_end(self.delimiters, EndRule::In);
                if self.top_after(ends) == Some(DelimiterK::KwAdo) || self.top_after(ends) == Some(
                    DelimiterK::KwLetExpr,
                ) {
                    let closed = self.commit(token, ends);
                    self.lemma_commit_poised(token, EndRule::In);
                    let popped = closed.pop();
                    lemma_root_count(popped.delimiters, 0);
                    self.lemma_commit_level(token, EndRule::In);
                    popped.lemma_push_ends_level(token, 1);
                    assert(popped.push_ends(token, 1) == popped.push_end(token)) by {
                        assert(popped.push_end(token).push_ends(token, 0) == popped.push_end(token));
                    }
                    popped.push_end(token).lemma_emit_level(
                        token.with_depth(popped.push_end(token).depth),
                    );
                } else {
                    self.lemma_add_plain_level(token, now);
                }
            },
            _ => {
                self.lemma_add_plain_level(token, now);
            },
        }
    }

    /// At the end of the input, where every frame but the root gets its end.
    pub proof fn lemma_finalize_level(self, eof_offset: usize)
        requires
            level(self),
            root_count(self.delimiters) <= 1,
            self.depth + root_count(self.delimiters) >= indented_count(self.delimiters),
        ensures
            level(self.finalize(eof_offset)),
        decreases self.delimiters.len(),
    {
        if self.delimiters.len() > 0 {
            let delimiter = self.delimiters.last().1;
            let popped = self.pop();
            let separator = Token::layout(LayoutK::Separator, eof_offset, self.depth);
            let end = Token::layout(LayoutK::End, eof_offset, self.depth);
            lemma_root_count(popped.delimiters, 0);
            if delimiter == DelimiterK::MaskRoot {
                popped.lemma_emit_level(separator);
                popped.emit(separator).lemma_finalize_level(eof_offset);
            } else if delimiter.is_indented() {
                lemma_count_push(self.output, separator, LayoutK::Begin);
                lemma_count_push(self.output, separator, LayoutK::End);
                lemma_leveled_push(self.output, separator);
                lemma_count_push(self.output.push(separator), end, LayoutK::Begin);
                lemma_count_push(self.output.push(separator), end, LayoutK::End);
                lemma_leveled_push(self.output.push(separator), end);
                (Layout {
                    delimiters: popped.delimiters,
                    depth: one_less(self.depth),
                    output: self.output.push(separator).push(end),
                }).lemma_finalize_level(eof_offset);
            } else {
                popped.lemma_finalize_level(eof_offset);
            }
        }
    }
}

impl Layout {
    /// No step opens a root frame.
    pub proof fn lemma_add_layout_roots(self, token: Token, now: Position, next: Position)
        ensures
            root_count(self.add_layout(token, now, next).delimiters) <= root_count(self.delimiters),
    {
        let offside = self.lemma_commit_roots(token, EndRule::Offside(now.column));
        let indented = self.lemma_commit_roots(token, EndRule::Indented);
        let arrow = self.lemma_commit_roots(token, EndRule::Arrow(now.column));
        let inward = self.lemma_commit_roots(token, EndRule::In);
        let separated = offside.add_separator(token, now);
        let plain = self.add_plain(token, now);
        lemma_root_count_push(offside.delimiters, (now, DelimiterK::MaskPat));
        lemma_root_count_push(separated.delimiters, (now, DelimiterK::KwCase));
        lemma_root_count_push(separated.delimiters, (now, DelimiterK::MaskLam));
        lemma_root_count_push(separated.delimiters, (now, DelimiterK::KwIf));
        lemma_root_count_push(self.delimiters, (next, DelimiterK::MaskTop));
        lemma_root_count_push(plain.delimiters, (next, DelimiterK::KwAdo));
        lemma_root_count_push(plain.delimiters, (next, DelimiterK::KwDo));
        lemma_root_count_push(plain.delimiters, (next, DelimiterK::KwLetStmt));
        lemma_root_count_push(plain.delimiters, (next, DelimiterK::KwLetExpr));
        // `of`
        let of_popped = indented.pop();
        let of_begun = of_popped.emit_current(token).add_begin(token, next, DelimiterK::KwOf);
        lemma_root_count_push(of_popped.delimiters, (next, DelimiterK::KwOf));
        lemma_root_count_push(of_begun.delimiters, (next, DelimiterK::MaskPat));
        let of_offside = indented.lemma_commit_roots(token, EndRule::Offside(now.column));
        lemma_root_count_push(of_offside.delimiters, (now, DelimiterK::MaskPat));
        let _ = indented.lemma_pop_roots();
        // `then`
        lemma_root_count_push(of_popped.delimiters, (now, DelimiterK::KwThen));
        // `->`
        let arrow_once = arrow.lemma_pop_roots();
        let _ = arrow_once.lemma_pop_roots();
        // `in`
        let in_popped = inward.lemma_pop_roots();
        assert(in_popped.push_end(token).delimiters == in_popped.delimiters);
    }

    /// Dropping a frame opens no root frame.
    pub proof fn lemma_pop_roots(self) -> (popped: Layout)
        ensures
            popped == self.pop(),
            root_count(popped.delimiters) <= root_count(self.delimiters),
            popped.output == self.output,
            popped.depth == self.depth,
    {
        self.pop()
    }

    /// Closing frames opens no root frame. Returns what is left.
    pub proof fn lemma_commit_roots(self, token: Token, rule: EndRule) -> (closed: Layout)
        ensures
            closed == self.commit(token, determine_end(self.delimiters, rule)),
            root_count(closed.delimiters) <= root_count(self.delimiters),
    {
        let ends = determine_end(self.delimiters, rule);
        lemma_determine_end(self.delimiters, rule);
        let kept = self.truncate(ends.0);
        assert(kept.delimiters =~= self.delimiters.take(ends.0 as int)) by {
            assert(self.delimiters.take(self.delimiters.len() as int) =~= self.delimiters);
        }
        kept.lemma_push_ends_delimiters(token, ends.1);
        lemma_root_count(self.delimiters, ends.0 as int);
        self.commit(token, ends)
    }
}

/// A root frame that is open where the input ends has been open all along.
proof fn lemma_rooted_all_along(s: Seq<char>, raw: Seq<Token>, k: int, layout: Layout)
    requires
        0 <= k < raw.len(),
    ensures
        root_count(layout_before_end(s, raw, k, layout).delimiters) <= root_count(
            layout.delimiters,
        ),
    decreases raw.len() - k,
{
    if k + 1 < raw.len() {
        let now = position_at(s, raw[k].begin);
        let next = position_at(s, raw[k + 1].begin);
        layout.lemma_add_layout_roots(raw[k], now, next);
        lemma_rooted_all_along(s, raw, k + 1, layout.add_layout(raw[k], now, next));
    }
}

/// What a step adds that is a begin: at most one.
proof fn lemma_add_layout_begins(layout: Layout, token: Token, now: Position, next: Position)
    requires
        !(token.kind is Layout),
    ensures
        count_layout(layout.add_layout(token, now, next).output, LayoutK::Begin) <= count_layout(
            layout.output,
            LayoutK::Begin,
        ) + 1,
{
    layout.lemma_add_layout_stepped(token, now, next);
    let before = layout.output;
    let after = layout.add_layout(token, now, next).output;
    if crate::lexer::shape::emitted(before, after, token) {
        lemma_closed_begins(before, after.drop_last(), token.begin);
        lemma_count_push(after.drop_last(), after.last(), LayoutK::Begin);
        assert(after.drop_last().push(after.last()) =~= after);
    } else {
        let front = after.drop_last();
        lemma_closed_begins(before, front.drop_last(), token.begin);
        lemma_count_push(front.drop_last(), front.last(), LayoutK::Begin);
        assert(front.drop_last().push(front.last()) =~= front);
        lemma_count_push(front, after.last(), LayoutK::Begin);
        assert(front.push(after.last()) =~= after);
    }
}

proof fn lemma_closed_begins(before: Seq<Token>, now: Seq<Token>, offset: usize)
    requires
        crate::lexer::shape::closed(before, now, offset),
    ensures
        count_layout(now, LayoutK::Begin) == count_layout(before, LayoutK::Begin),
    decreases now.len(),
{
    if now.len() > before.len() {
        assert(crate::lexer::shape::closed(before, now.drop_last(), offset));
        lemma_closed_begins(before, now.drop_last(), offset);
    } else {
        assert(now =~= before);
    }
}

/// There are no more raw tokens than characters and one.
pub proof fn lemma_raw_tokens_len(s: Seq<char>, i: int)
    requires
        0 <= i <= s.len(),
    ensures
        raw_tokens(s, i).len() <= s.len() - i + 1,
    decreases s.len() - i,
{
    let (token, next) = next_token(s, i);
    lemma_next_token_bounds(s, i);
    if !token.is_eof() {
        lemma_raw_tokens_len(s, next);
    }
}

proof fn lemma_layout_from_level(s: Seq<char>, raw: Seq<Token>, k: int, layout: Layout)
    requires
        0 <= k < raw.len() <= usize::MAX,
        forall|j: int| 0 <= j < raw.len() ==> !((#[trigger] raw[j]).kind is Layout),
        poised(layout),
        level(layout),
        count_layout(layout.output, LayoutK::Begin) <= k,
        root_count(layout_before_end(s, raw, k, layout).delimiters) == 1,
    ensures
        leveled(layout_from(s, raw, k, layout).output),
    decreases raw.len() - k,
{
    let token = raw[k];
    lemma_rooted_all_along(s, raw, k, layout);
    if k + 1 == raw.len() {
        let eof_offset = byte_len(s) as usize;
        layout.lemma_finalize_level(eof_offset);
        let closing = layout.finalize(eof_offset);
        let last = token.with_depth(closing.depth);
        lemma_leveled_push(closing.output, last);
    } else {
        let now = position_at(s, token.begin);
        let next = position_at(s, raw[k + 1].begin);
        let stepped = layout.add_layout(token, now, next);
        lemma_rooted_all_along(s, raw, k + 1, stepped);
        layout.lemma_add_layout_poised(token, now, next);
        layout.lemma_add_layout_level(token, now, next);
        lemma_add_layout_begins(layout, token, now, next);
        lemma_layout_from_level(s, raw, k + 1, stepped);
    }
}

/// In the token stream of a source in which no token closes the root
/// frame, every token carries the number of blocks that are open at it.
pub proof fn lemma_lex_depths(s: Seq<char>)
    requires
        byte_len(s) < usize::MAX,
        rooted(s) || blank(s),
    ensures
        leveled(lex_of(s)),
{
    let raw = raw_tokens(s, 0);
    lemma_raw_tokens_kind(s, 0);
    lemma_raw_tokens_len(s, 0);
    crate::lines::lemma_offset_ends(s);
    crate::lines::lemma_offset_monotone(s, 0, s.len() as int);
    if blank(s) {
        assert forall|k: int| 0 <= k < raw.len() implies #[trigger] depth_fits(raw, k) by {
            assert(raw.take(0) =~= Seq::<Token>::empty());
            crate::lexer::cursor::lemma_next_token_depth(s, 0);
        }
    } else {
        let initial = Layout::initial(position_at(s, raw[0].begin));
        let root = (position_at(s, raw[0].begin), DelimiterK::MaskRoot);
        lemma_indented_count_push(Seq::empty(), root);
        lemma_root_count_push(Seq::empty(), root);
        assert(initial.delimiters =~= Seq::<(Position, DelimiterK)>::empty().push(root));
        assert forall|n: int| 0 <= n <= initial.output.len() implies count_layout(
            #[trigger] initial.output.take(n),
            LayoutK::End,
        ) <= count_layout(initial.output.take(n), LayoutK::Begin) by {
            assert(initial.output.take(n) =~= Seq::<Token>::empty());
        }
        lemma_layout_from_level(s, raw, 0, initial);
    }
}

} // verus!
