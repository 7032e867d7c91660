//! Begins and ends balance.
//!
//! The engine puts out one `Begin` for every indented frame that it opens
//! and one `End` for every indented frame that it closes, the root frame at
//! the end of the input excepted. So as long as the root frame is open, no
//! prefix of the output holds more ends than begins, and a run that ends
//! with the root frame open puts out as many ends as begins. A token that
//! closes the root frame before the end, such as an `->` in the first
//! column, puts out one end more.

use crate::lexer::layout::{
    determine_end, indented_count, lemma_determine_end, lemma_indented_count_push, one_less,
    DelimiterK, EndRule, Layout,
};
use crate::lexer::{blank, layout_from, lex_of, position_at, raw_tokens};
use crate::lines::byte_len;
use crate::token::{LayoutK, Position, Token, TokenK};
use vstd::prelude::*;

verus! {

/// The number of layout tokens of `kind` among `tokens`.
pub open spec fn count_layout(tokens: Seq<Token>, kind: LayoutK) -> nat
    decreases tokens.len(),
{
    if tokens.len() == 0 {
        0
    } else {
        count_layout(tokens.drop_last(), kind) + if tokens.last().kind == TokenK::Layout(kind) {
            1nat
        } else {
            0nat
        }
    }
}

/// The number of root frames on the stack.
pub open spec fn root_count(delimiters: Seq<(Position, DelimiterK)>) -> nat
    decreases delimiters.len(),
{
    if delimiters.len() == 0 {
        0
    } else {
        root_count(delimiters.drop_last()) + if delimiters.last().1 == DelimiterK::MaskRoot {
            1nat
        } else {
            0nat
        }
    }
}

/// No prefix of `tokens` holds more ends than begins and `slack`.
pub open spec fn nested(tokens: Seq<Token>, slack: int) -> bool {
    forall|n: int|
        0 <= n <= tokens.len() ==> count_layout(#[trigger] tokens.take(n), LayoutK::End)
            <= count_layout(tokens.take(n), LayoutK::Begin) + slack
}

/// What holds between the stack and the output while the engine runs: the
/// ends put out and the indented frames open make up the begins put out
/// and the root; at most one frame is the root; and no prefix of the output
/// holds more ends than begins, or one more once the root is closed.
pub open spec fn poised(layout: Layout) -> bool {
    &&& count_layout(layout.output, LayoutK::Begin) + 1 == count_layout(
        layout.output,
        LayoutK::End,
    ) + indented_count(layout.delimiters)
    &&& root_count(layout.delimiters) <= 1
    &&& nested(layout.output, 1 - root_count(layout.delimiters))
}

/// One more token is one more of its kind.
pub proof fn lemma_count_push(tokens: Seq<Token>, token: Token, kind: LayoutK)
    ensures
        count_layout(tokens.push(token), kind) == count_layout(tokens, kind) + if token.kind
            == TokenK::Layout(kind) {
            1nat
        } else {
            0nat
        },
{
    assert(tokens.push(token).drop_last() =~= tokens);
}

/// A token after nested tokens leaves them nested if the whole is.
pub proof fn lemma_nested_push(tokens: Seq<Token>, token: Token, slack: int)
    requires
        nested(tokens, slack),
        count_layout(tokens.push(token), LayoutK::End) <= count_layout(
            tokens.push(token),
            LayoutK::Begin,
        ) + slack,
    ensures
        nested(tokens.push(token), slack),
{
    let now = tokens.push(token);
    assert forall|n: int| 0 <= n <= now.len() implies count_layout(
        #[trigger] now.take(n),
        LayoutK::End,
    ) <= count_layout(now.take(n), LayoutK::Begin) + slack by {
        if n <= tokens.len() {
            assert(now.take(n) =~= tokens.take(n));
        } else {
            assert(now.take(n) =~= now);
        }
    }
}

/// What holds of every prefix holds of the whole.
pub proof fn lemma_nested_whole(tokens: Seq<Token>, slack: int)
    requires
        nested(tokens, slack),
    ensures
        count_layout(tokens, LayoutK::End) <= count_layout(tokens, LayoutK::Begin) + slack,
{
    assert(tokens.take(tokens.len() as int) =~= tokens);
}

/// A part of the stack holds no more root frames than the whole, and
/// there are no more root frames than indented frames.
pub proof fn lemma_root_count(delimiters: Seq<(Position, DelimiterK)>, n: int)
    requires
        0 <= n <= delimiters.len(),
    ensures
        root_count(delimiters.take(n)) <= root_count(delimiters),
        root_count(delimiters) <= indented_count(delimiters),
    decreases delimiters.len(),
{
    if delimiters.len() > 0 {
        if n < delimiters.len() {
            lemma_root_count(delimiters.drop_last(), n);
            assert(delimiters.drop_last().take(n) =~= delimiters.take(n));
        } else {
            lemma_root_count(delimiters.drop_last(), n - 1);
            assert(delimiters.take(n) =~= delimiters);
        }
    } else {
        assert(delimiters.take(n) =~= delimiters);
    }
}

/// One more frame is one more root frame if it is the root.
pub proof fn lemma_root_count_push(
    delimiters: Seq<(Position, DelimiterK)>,
    frame: (Position, DelimiterK),
)
    ensures
        root_count(delimiters.push(frame)) == root_count(delimiters) + if frame.1
            == DelimiterK::MaskRoot {
            1nat
        } else {
            0nat
        },
{
    assert(delimiters.push(frame).drop_last() =~= delimiters);
}

impl Layout {
    /// A token that is neither a begin nor an end changes nothing.
    pub proof fn lemma_emit_poised(self, token: Token)
        requires
            poised(self),
            token.kind != TokenK::Layout(LayoutK::Begin),
            token.kind != TokenK::Layout(LayoutK::End),
        ensures
            poised(self.emit(token)),
    {
        lemma_count_push(self.output, token, LayoutK::Begin);
        lemma_count_push(self.output, token, LayoutK::End);
        lemma_nested_whole(self.output, 1 - root_count(self.delimiters));
        lemma_nested_push(self.output, token, 1 - root_count(self.delimiters));
    }

    /// A mark on the stack changes nothing.
    pub proof fn lemma_push_poised(self, position: Position, delimiter: DelimiterK)
        requires
            poised(self),
            !delimiter.is_indented(),
        ensures
            poised(self.push(position, delimiter)),
    {
        lemma_indented_count_push(self.delimiters, (position, delimiter));
        lemma_root_count_push(self.delimiters, (position, delimiter));
    }

    /// Dropping a mark changes nothing.
    pub proof fn lemma_pop_poised(self)
        requires
            poised(self),
            self.delimiters.len() > 0 ==> !self.delimiters.last().1.is_indented(),
        ensures
            poised(self.pop()),
    {
    }

    /// Opening a block adds a begin and an indented frame.
    pub proof fn lemma_add_begin_poised(self, token: Token, next: Position, delimiter: DelimiterK)
        requires
            poised(self),
            delimiter.is_indented(),
            delimiter != DelimiterK::MaskRoot,
        ensures
            poised(self.add_begin(token, next, delimiter)),
    {
        let after = self.add_begin(token, next, delimiter);
        if after.output.len() > self.output.len() {
            let begin = Token::layout(LayoutK::Begin, token.end, (self.depth + 1) as usize);
            lemma_indented_count_push(self.delimiters, (next, delimiter));
            lemma_root_count_push(self.delimiters, (next, delimiter));
            lemma_count_push(self.output, begin, LayoutK::Begin);
            lemma_count_push(self.output, begin, LayoutK::End);
            lemma_nested_whole(self.output, 1 - root_count(self.delimiters));
            lemma_nested_push(self.output, begin, 1 - root_count(self.delimiters));
        }
    }

    /// A separator changes nothing.
    pub proof fn lemma_add_separator_poised(self, token: Token, now: Position)
        requires
            poised(self),
        ensures
            poised(self.add_separator(token, now)),
    {
        if self.delimiters.len() > 0 {
            let separator = Token::layout(LayoutK::Separator, token.begin, self.depth);
            self.lemma_emit_poised(separator);
            self.emit(separator).lemma_push_poised(now, DelimiterK::MaskPat);
        }
    }

    /// Ending `make_n` blocks adds `make_n` ends and no begin.
    pub proof fn lemma_push_ends_counts(self, token: Token, make_n: nat, slack: int)
        requires
            nested(self.output, slack),
            count_layout(self.output, LayoutK::End) + make_n <= count_layout(
                self.output,
                LayoutK::Begin,
            ) + slack,
        ensures
            nested(self.push_ends(token, make_n).output, slack),
            count_layout(self.push_ends(token, make_n).output, LayoutK::End) == count_layout(
                self.output,
                LayoutK::End,
            ) + make_n,
            count_layout(self.push_ends(token, make_n).output, LayoutK::Begin) == count_layout(
                self.output,
                LayoutK::Begin,
            ),
            self.push_ends(token, make_n).delimiters == self.delimiters,
        decreases make_n,
    {
        if make_n > 0 {
            let separator = Token::layout(LayoutK::Separator, token.begin, self.depth);
            let end = Token::layout(LayoutK::End, token.begin, self.depth);
            lemma_count_push(self.output, separator, LayoutK::Begin);
            lemma_count_push(self.output, separator, LayoutK::End);
            lemma_nested_push(self.output, separator, slack);
            lemma_count_push(self.output.push(separator), end, LayoutK::Begin);
            lemma_count_push(self.output.push(separator), end, LayoutK::End);
            lemma_nested_push(self.output.push(separator), end, slack);
            self.push_end(token).lemma_push_ends_counts(token, (make_n - 1) as nat, slack);
        }
    }

    /// Closing the frames that a rule closes puts out an end for each
    /// indented one.
    pub proof fn lemma_commit_poised(self, token: Token, rule: EndRule)
        requires
            poised(self),
        ensures
            poised(self.commit(token, determine_end(self.delimiters, rule))),
            self.commit(token, determine_end(self.delimiters, rule)).delimiters
                == self.delimiters.take(determine_end(self.delimiters, rule).0 as int),
    {
        let ends = determine_end(self.delimiters, rule);
        lemma_determine_end(self.delimiters, rule);
        let kept = self.truncate(ends.0);
        assert(kept.delimiters =~= self.delimiters.take(ends.0 as int)) by {
            assert(self.delimiters.take(self.delimiters.len() as int) =~= self.delimiters);
        }
        lemma_root_count(self.delimiters, ends.0 as int);
        lemma_root_count(kept.delimiters, 0);
        let slack = 1 - root_count(kept.delimiters);
        assert(nested(self.output, slack));
        kept.lemma_push_ends_counts(token, ends.1, slack);
    }

    /// Dropping an indented frame and ending its block changes nothing.
    pub proof fn lemma_pop_end_poised(self, token: Token)
        requires
            poised(self),
            self.delimiters.len() > 0,
            self.delimiters.last().1.is_indented(),
            self.delimiters.last().1 != DelimiterK::MaskRoot,
        ensures
            poised(self.pop().push_end(token)),
    {
        let popped = self.pop();
        lemma_root_count(popped.delimiters, 0);
        let slack = 1 - root_count(popped.delimiters);
        popped.lemma_push_ends_counts(token, 1, slack);
        assert(popped.push_ends(token, 1) == popped.push_end(token)) by {
            assert(popped.push_end(token).push_ends(token, 0) == popped.push_end(token));
        }
    }

    /// A plain token keeps the balance.
    pub proof fn lemma_add_plain_poised(self, token: Token, now: Position)
        requires
            poised(self),
            !(token.kind is Layout),
        ensures
            poised(self.add_plain(token, now)),
            poised(self.add_end(token, now).add_separator(token, now)),
    {
        self.lemma_commit_poised(token, EndRule::Offside(now.column));
        self.add_end(token, now).lemma_add_separator_poised(token, now);
        self.add_end(token, now).add_separator(token, now).lemma_emit_poised(
            token.with_depth(self.add_end(token, now).add_separator(token, now).depth),
        );
    }

    /// One step of the engine keeps the balance.
    pub proof fn lemma_add_layout_poised(self, token: Token, now: Position, next: Position)
        requires
            poised(self),
            !(token.kind is Layout),
        ensures
            poised(self.add_layout(token, now, next)),
    {
        self.lemma_add_plain_poised(token, now);
        let plain = self.add_plain(token, now);
        let separated = self.add_end(token, now).add_separator(token, now);
        // The marks that open a block after the token.
        self.lemma_emit_poised(token.with_depth(self.depth));
        self.emit_current(token).lemma_add_begin_poised(token, next, DelimiterK::MaskTop);
        plain.lemma_add_begin_poised(token, next, DelimiterK::KwAdo);
        plain.lemma_add_begin_poised(token, next, DelimiterK::KwDo);
        plain.lemma_add_begin_poised(token, next, DelimiterK::KwLetStmt);
        plain.lemma_add_begin_poised(token, next, DelimiterK::KwLetExpr);
        // The keywords that push a mark.
        separated.lemma_push_poised(now, DelimiterK::KwCase);
        separated.push(now, DelimiterK::KwCase).lemma_emit_poised(
            token.with_depth(separated.depth),
        );
        separated.lemma_push_poised(now, DelimiterK::MaskLam);
        separated.push(now, DelimiterK::MaskLam).lemma_emit_poised(
            token.with_depth(separated.depth),
        );
        separated.lemma_push_poised(now, DelimiterK::KwIf);
        separated.push(now, DelimiterK::KwIf).lemma_emit_poised(token.with_depth(separated.depth));
        // `of`, `then`, `else`
        self.lemma_commit_poised(token, EndRule::Indented);
        let closed = self.commit(token, determine_end(self.delimiters, EndRule::Indented));
        if closed.delimiters.len() > 0 && !closed.delimiters.last().1.is_indented() {
            closed.lemma_pop_poised();
            let popped = closed.pop();
            popped.lemma_emit_poised(token.with_depth(popped.depth));
            popped.emit_current(token).lemma_add_begin_poised(token, next, DelimiterK::KwOf);
            popped.emit_current(token).add_begin(token, next, DelimiterK::KwOf).lemma_push_poised(
                next,
                DelimiterK::MaskPat,
            );
            popped.lemma_push_poised(now, DelimiterK::KwThen);
            popped.push(now, DelimiterK::KwThen).lemma_emit_poised(token.with_depth(popped.depth));
        }
        closed.lemma_add_plain_poised(token, now);
        // `->`
        self.lemma_commit_poised(token, EndRule::Arrow(now.column));
        let arrow = self.commit(token, determine_end(self.delimiters, EndRule::Arrow(now.column)));
        let condition = if arrow.top() == Some(DelimiterK::KwIf) {
            arrow.pop()
        } else {
            arrow
        };
        if arrow.top() == Some(DelimiterK::KwIf) {
            arrow.lemma_pop_poised();
        }
        let mask = if condition.top() == Some(DelimiterK::MaskLam) || condition.top() == Some(
            DelimiterK::MaskPat,
        ) {
            condition.pop()
        } else {
            condition
        };
        if condition.top() == Some(DelimiterK::MaskLam) || condition.top() == Some(
            DelimiterK::MaskPat,
        ) {
            condition.lemma_pop_poised();
        }
        mask.lemma_emit_poised(token.with_depth(mask.depth));
        // `in`
        self.lemma_commit_poised(token, EndRule::In);
        let inward = self.commit(token, determine_end(self.delimiters, EndRule::In));
        if inward.top() == Some(DelimiterK::KwAdo) || inward.top() == Some(DelimiterK::KwLetExpr) {
            inward.lemma_pop_end_poised(token);
            inward.pop().push_end(token).lemma_emit_poised(
                token.with_depth(inward.pop().push_end(token).depth),
            );
        }
    }

    /// At the end of the input every indented frame but the root gets its
    /// end: with the root frame open the output then holds as many ends as
    /// begins, and without it one end more.
    pub proof fn lemma_finalize_balance(self, eof_offset: usize, slack: int)
        requires
            root_count(self.delimiters) <= 1,
            nested(self.output, slack),
            count_layout(self.output, LayoutK::End) + indented_count(self.delimiters)
                <= count_layout(self.output, LayoutK::Begin) + slack + root_count(self.delimiters),
        ensures
            nested(self.finalize(eof_offset).output, slack),
            count_layout(self.finalize(eof_offset).output, LayoutK::End) + root_count(
                self.delimiters,
            ) == count_layout(self.output, LayoutK::End) + indented_count(self.delimiters),
            count_layout(self.finalize(eof_offset).output, LayoutK::Begin) == count_layout(
                self.output,
                LayoutK::Begin,
            ),
        decreases self.delimiters.len(),
    {
        if self.delimiters.len() > 0 {
            let delimiter = self.delimiters.last().1;
            let popped = self.pop();
            let separator = Token::layout(LayoutK::Separator, eof_offset, self.depth);
            let end = Token::layout(LayoutK::End, eof_offset, self.depth);
            lemma_count_push(self.output, separator, LayoutK::Begin);
            lemma_count_push(self.output, separator, LayoutK::End);
            lemma_root_count(popped.delimiters, 0);
            if delimiter == DelimiterK::MaskRoot {
                lemma_nested_push(self.output, separator, slack);
                popped.emit(separator).lemma_finalize_balance(eof_offset, slack);
            } else if delimiter.is_indented() {
                lemma_nested_push(self.output, separator, slack);
                lemma_count_push(self.output.push(separator), end, LayoutK::Begin);
                lemma_count_push(self.output.push(separator), end, LayoutK::End);
                lemma_nested_push(self.output.push(separator), end, slack);
                (Layout {
                    delimiters: popped.delimiters,
                    depth: one_less(self.depth),
                    output: self.output.push(separator).push(end),
                }).lemma_finalize_balance(eof_offset, slack);
            } else {
                popped.lemma_finalize_balance(eof_offset, slack);
            }
        }
    }
}

/// The state of the engine after the raw tokens from the `k`-th on, the
/// last excepted: where the input ends.
pub open spec fn layout_before_end(s: Seq<char>, raw: Seq<Token>, k: int, layout: Layout) -> Layout
    decreases raw.len() - k,
{
    if k < 0 || k + 1 >= raw.len() {
        layout
    } else {
        layout_before_end(
            s,
            raw,
            k + 1,
            layout.add_layout(raw[k], position_at(s, raw[k].begin), position_at(s, raw[k + 1].begin)),
        )
    }
}

/// Whether the root frame is open where the source ends: no token has
/// closed it.
pub open spec fn rooted(s: Seq<char>) -> bool {
    let raw = raw_tokens(s, 0);
    root_count(
        layout_before_end(s, raw, 0, Layout::initial(position_at(s, raw[0].begin))).delimiters,
    ) == 1
}

proof fn lemma_layout_from_balance(s: Seq<char>, raw: Seq<Token>, k: int, layout: Layout)
    requires
        0 <= k < raw.len(),
        forall|j: int| 0 <= j < raw.len() ==> !((#[trigger] raw[j]).kind is Layout),
        poised(layout),
    ensures
        ({
            let before = layout_before_end(s, raw, k, layout);
            let output = layout_from(s, raw, k, layout).output;
            &&& root_count(before.delimiters) <= 1
            &&& count_layout(output, LayoutK::End) + root_count(before.delimiters) == count_layout(
                output,
                LayoutK::Begin,
            ) + 1
            &&& nested(output, 1 - root_count(before.delimiters))
        }),
    decreases raw.len() - k,
{
    let token = raw[k];
    if k + 1 == raw.len() {
        let eof_offset = byte_len(s) as usize;
        let slack = 1 - root_count(layout.delimiters);
        lemma_root_count(layout.delimiters, 0);
        layout.lemma_finalize_balance(eof_offset, slack);
        let closing = layout.finalize(eof_offset);
        let last = token.with_depth(closing.depth);
        lemma_count_push(closing.output, last, LayoutK::Begin);
        lemma_count_push(closing.output, last, LayoutK::End);
        lemma_nested_whole(closing.output, slack);
        lemma_nested_push(closing.output, last, slack);
    } else {
        let now = position_at(s, token.begin);
        let next = position_at(s, raw[k + 1].begin);
        layout.lemma_add_layout_poised(token, now, next);
        lemma_layout_from_balance(s, raw, k + 1, layout.add_layout(token, now, next));
    }
}

/// In the token stream of a source, no prefix holds more ends than begins
/// and one; and where the root frame is open at the end of the source, no
/// prefix holds more ends than begins, and the whole holds as many ends as
/// begins.
pub proof fn lemma_lex_balance(s: Seq<char>)
    ensures
        nested(lex_of(s), 1),
        rooted(s) || blank(s) ==> nested(lex_of(s), 0) && count_layout(lex_of(s), LayoutK::End)
            == count_layout(lex_of(s), LayoutK::Begin),
        !rooted(s) && !blank(s) ==> count_layout(lex_of(s), LayoutK::End) == count_layout(
            lex_of(s),
            LayoutK::Begin,
        ) + 1,
{
    let raw = raw_tokens(s, 0);
    crate::lexer::order::lemma_raw_tokens_kind(s, 0);
    if raw.len() == 1 && raw[0].is_eof() {
        assert(raw.drop_last() =~= Seq::<Token>::empty());
        assert forall|n: int| 0 <= n <= raw.len() implies count_layout(
            #[trigger] raw.take(n),
            LayoutK::End,
        ) <= count_layout(raw.take(n), LayoutK::Begin) by {
            if n == 0 {
                assert(raw.take(0) =~= Seq::<Token>::empty());
            } else {
                assert(raw.take(n) =~= raw);
                lemma_count_push(Seq::empty(), raw[0], LayoutK::End);
                lemma_count_push(Seq::empty(), raw[0], LayoutK::Begin);
                assert(Seq::<Token>::empty().push(raw[0]) =~= raw);
            }
        }
    } else {
        let initial = Layout::initial(position_at(s, raw[0].begin));
        let root = (position_at(s, raw[0].begin), DelimiterK::MaskRoot);
        lemma_indented_count_push(Seq::empty(), root);
        lemma_root_count_push(Seq::empty(), root);
        assert(initial.delimiters =~= Seq::<(Position, DelimiterK)>::empty().push(root));
        assert forall|n: int| 0 <= n <= initial.output.len() implies count_layout(
            #[trigger] initial.output.take(n),
            LayoutK::End,
        ) <= count_layout(initial.output.take(n), LayoutK::Begin) by {
            assert(initial.output.take(n) =~= Seq::<Token>::empty());
        }
        lemma_layout_from_balance(s, raw, 0, initial);
    }
}

} // verus!
