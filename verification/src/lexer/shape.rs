//! What the layout engine adds to the token stream, and where.
//!
//! One step of the engine puts out, in this order: separators and ends at
//! the start of the token, the token itself, and at most one begin at the
//! end of the token. Nothing that was put out before is touched.

use crate::lexer::layout::{DelimiterK, EndRule, Layout};
use crate::token::{LayoutK, Position, Token, TokenK};
use vstd::prelude::*;

verus! {

/// A layout token of no width at `offset`.
pub open spec fn stands_at(token: Token, offset: usize) -> bool {
    &&& token.kind is Layout
    &&& token.comment_begin == offset
    &&& token.comment_end == offset
    &&& token.begin == offset
    &&& token.end == offset
}

/// A separator or an end at `offset`.
pub open spec fn closes_at(token: Token, offset: usize) -> bool {
    stands_at(token, offset) && token.kind != TokenK::Layout(LayoutK::Begin)
}

/// A begin at `offset`.
pub open spec fn opens_at(token: Token, offset: usize) -> bool {
    stands_at(token, offset) && token.kind == TokenK::Layout(LayoutK::Begin)
}

/// `token` but for its depth.
pub open spec fn is_token(found: Token, token: Token) -> bool {
    found == token.with_depth(found.depth)
}

/// `now` is `before` and then separators and ends at `offset`.
pub open spec fn closed(before: Seq<Token>, now: Seq<Token>, offset: usize) -> bool {
    &&& before.len() <= now.len()
    &&& forall|k: int| 0 <= k < before.len() ==> now[k] == before[k]
    &&& forall|k: int| before.len() <= k < now.len() ==> closes_at(#[trigger] now[k], offset)
}

/// `now` is `before`, then separators and ends at the start of `token`,
/// then `token`.
pub open spec fn emitted(before: Seq<Token>, now: Seq<Token>, token: Token) -> bool {
    &&& now.len() > before.len()
    &&& is_token(now.last(), token)
    &&& closed(before, now.drop_last(), token.begin)
}

/// `now` is `before`, then what a step adds for `token`: separators and
/// ends at its start, the token, and perhaps a begin at its end.
pub open spec fn stepped(before: Seq<Token>, now: Seq<Token>, token: Token) -> bool {
    ||| emitted(before, now, token)
    ||| (now.len() > 0 && opens_at(now.last(), token.end) && emitted(
        before,
        now.drop_last(),
        token,
    ))
}

impl Layout {
    /// Ending a block adds a separator and an end at the start of the token.
    pub proof fn lemma_push_end_closed(self, before: Seq<Token>, token: Token)
        requires
            closed(before, self.output, token.begin),
        ensures
            closed(before, self.push_end(token).output, token.begin),
    {
    }

    /// Ending blocks adds separators and ends at the start of the token.
    pub proof fn lemma_push_ends_closed(self, before: Seq<Token>, token: Token, make_n: nat)
        requires
            closed(before, self.output, token.begin),
        ensures
            closed(before, self.push_ends(token, make_n).output, token.begin),
        decreases make_n,
    {
        if make_n > 0 {
            self.lemma_push_end_closed(before, token);
            self.push_end(token).lemma_push_ends_closed(before, token, (make_n - 1) as nat);
        }
    }

    /// Closing frames adds separators and ends at the start of the token.
    pub proof fn lemma_commit_closed(self, before: Seq<Token>, token: Token, ends: (nat, nat))
        requires
            closed(before, self.output, token.begin),
        ensures
            closed(before, self.commit(token, ends).output, token.begin),
    {
        self.truncate(ends.0).lemma_push_ends_closed(before, token, ends.1);
    }

    /// A separator stands at the start of the token.
    pub proof fn lemma_add_separator_closed(self, before: Seq<Token>, token: Token, now: Position)
        requires
            closed(before, self.output, token.begin),
        ensures
            closed(before, self.add_separator(token, now).output, token.begin),
    {
    }

    /// After the separators and ends comes the token.
    pub proof fn lemma_emit_current(self, before: Seq<Token>, token: Token)
        requires
            closed(before, self.output, token.begin),
        ensures
            emitted(before, self.emit_current(token).output, token),
            stepped(before, self.emit_current(token).output, token),
    {
        assert(self.emit_current(token).output.drop_last() =~= self.output);
    }

    /// A plain token comes after the separators and ends that it calls for.
    pub proof fn lemma_add_plain_stepped(self, before: Seq<Token>, token: Token, now: Position)
        requires
            closed(before, self.output, token.begin),
        ensures
            emitted(before, self.add_plain(token, now).output, token),
            stepped(before, self.add_plain(token, now).output, token),
    {
        let ends = crate::lexer::layout::determine_end(
            self.delimiters,
            EndRule::Offside(now.column),
        );
        self.lemma_commit_closed(before, token, ends);
        self.add_end(token, now).lemma_add_separator_closed(before, token, now);
        self.add_end(token, now).add_separator(token, now).lemma_emit_current(before, token);
    }

    /// A begin, if there is one, comes after the token and stands at its end.
    pub proof fn lemma_add_begin_stepped(
        self,
        before: Seq<Token>,
        token: Token,
        next: Position,
        delimiter: DelimiterK,
    )
        requires
            emitted(before, self.output, token),
        ensures
            stepped(before, self.add_begin(token, next, delimiter).output, token),
    {
        let after = self.add_begin(token, next, delimiter);
        if after.output.len() > self.output.len() {
            assert(after.output.drop_last() =~= self.output);
        }
    }

    /// The token that is put out is the token, whatever came before.
    pub proof fn lemma_emit_current_at(self, before: Seq<Token>, token: Token, offset: usize)
        requires
            closed(before, self.output, offset),
        ensures
            is_token(self.emit_current(token).output.last(), token),
            self.emit_current(token).output.len() == self.output.len() + 1,
    {
    }

    /// One step adds to the output, in order: separators and ends at the
    /// start of the token, the token, and at most one begin at its end.
    pub proof fn lemma_add_layout_stepped(self, token: Token, now: Position, next: Position)
        ensures
            stepped(self.output, self.add_layout(token, now, next).output, token),
    {
        let before = self.output;
        assert(closed(before, self.output, token.begin));
        let offside = crate::lexer::layout::determine_end(
            self.delimiters,
            EndRule::Offside(now.column),
        );
        let indented = crate::lexer::layout::determine_end(self.delimiters, EndRule::Indented);
        let arrow = crate::lexer::layout::determine_end(
            self.delimiters,
            EndRule::Arrow(now.column),
        );
        let inward = crate::lexer::layout::determine_end(self.delimiters, EndRule::In);
        self.lemma_add_plain_stepped(before, token, now);
        self.lemma_commit_closed(before, token, offside);
        self.lemma_commit_closed(before, token, indented);
        self.lemma_commit_closed(before, token, arrow);
        self.lemma_commit_closed(before, token, inward);
        self.add_end(token, now).lemma_add_separator_closed(before, token, now);
        let separated = self.add_end(token, now).add_separator(token, now);
        // The keywords that push a mark and go on as a plain token.
        separated.push(now, DelimiterK::KwCase).lemma_emit_current(before, token);
        separated.push(now, DelimiterK::MaskLam).lemma_emit_current(before, token);
        separated.push(now, DelimiterK::KwIf).lemma_emit_current(before, token);
        // The marks that open a block after the token.
        self.lemma_emit_current(before, token);
        self.emit_current(token).lemma_add_begin_stepped(before, token, next, DelimiterK::MaskTop);
        self.add_plain(token, now).lemma_add_begin_stepped(before, token, next, DelimiterK::KwAdo);
        self.add_plain(token, now).lemma_add_begin_stepped(before, token, next, DelimiterK::KwDo);
        self.add_plain(token, now).lemma_add_begin_stepped(
            before,
            token,
            next,
            DelimiterK::KwLetStmt,
        );
        self.add_plain(token, now).lemma_add_begin_stepped(
            before,
            token,
            next,
            DelimiterK::KwLetExpr,
        );
        // `of`
        let of_closed = self.commit(token, indented);
        of_closed.pop().lemma_emit_current(before, token);
        of_closed.pop().emit_current(token).lemma_add_begin_stepped(
            before,
            token,
            next,
            DelimiterK::KwOf,
        );
        of_closed.lemma_add_plain_stepped(before, token, now);
        // `->`
        let arrow_closed = self.commit(token, arrow);
        arrow_closed.lemma_emit_current(before, token);
        arrow_closed.pop().lemma_emit_current(before, token);
        arrow_closed.pop().pop().lemma_emit_current(before, token);
        // `then`, `else`
        of_closed.pop().push(now, DelimiterK::KwThen).lemma_emit_current(before, token);
        // `in`
        let in_closed = self.commit(token, inward).pop();
        in_closed.lemma_push_end_closed(before, token);
        in_closed.push_end(token).lemma_emit_current(before, token);
    }

    /// At the end of the input the engine adds separators and ends at the
    /// end of the source, and nothing else.
    pub proof fn lemma_finalize_closed(self, before: Seq<Token>, eof_offset: usize)
        requires
            closed(before, self.output, eof_offset),
        ensures
            closed(before, self.finalize(eof_offset).output, eof_offset),
            self.finalize(eof_offset).delimiters.len() == 0,
        decreases self.delimiters.len(),
    {
        if self.delimiters.len() > 0 {
            let delimiter = self.delimiters.last().1;
            let popped = self.pop();
            if delimiter == DelimiterK::MaskRoot {
                popped.emit(
                    Token::layout(LayoutK::Separator, eof_offset, self.depth),
                ).lemma_finalize_closed(before, eof_offset);
            } else if delimiter.is_indented() {
                (Layout {
                    delimiters: popped.delimiters,
                    depth: crate::lexer::layout::one_less(self.depth),
                    output: self.output.push(
                        Token::layout(LayoutK::Separator, eof_offset, self.depth),
                    ).push(Token::layout(LayoutK::End, eof_offset, self.depth)),
                }).lemma_finalize_closed(before, eof_offset);
            } else {
                popped.lemma_finalize_closed(before, eof_offset);
            }
        }
    }
}

} // verus!
