//! The layout engine: from indentation to explicit `Begin`, `Separator` and
//! `End` tokens.
//!
//! The engine keeps a stack of frames, each the position that opened it and
//! what opened it, and the current depth. One token at a time it closes the
//! frames that the token ends, separates what stands in the same column, and
//! opens a frame after the keywords that start a block. What it does is
//! stated as a function on values, [`add_layout`], which the engine follows
//! step for step.

use crate::token::{IdentifierK, LayoutK, OperatorK, Position, Token, TokenK};
use vstd::prelude::*;

verus! {

/// What opened a frame.
#[derive(Debug, Clone, Copy, PartialEq, Eq, Structural)]
pub enum DelimiterK {
    KwAdo,
    KwCase,
    KwDo,
    KwIf,
    KwLetExpr,
    KwLetStmt,
    KwOf,
    KwThen,
    MaskLam,
    MaskPat,
    MaskRoot,
    MaskTop,
}

impl DelimiterK {
    /// The kinds that open an indented block; the others only mark a place.
    pub open spec fn spec_is_indented(&self) -> bool {
        match *self {
            DelimiterK::KwAdo
            | DelimiterK::KwDo
            | DelimiterK::KwLetExpr
            | DelimiterK::KwLetStmt
            | DelimiterK::KwOf
            | DelimiterK::MaskRoot
            | DelimiterK::MaskTop => true,
            _ => false,
        }
    }

    /// Whether the frame opens an indented block.
    #[verifier::when_used_as_spec(spec_is_indented)]
    pub fn is_indented(&self) -> (r: bool)
        ensures
            r == self.spec_is_indented(),
    {
        matches!(
            self,
            DelimiterK::KwAdo
                | DelimiterK::KwDo
                | DelimiterK::KwLetExpr
                | DelimiterK::KwLetStmt
                | DelimiterK::KwOf
                | DelimiterK::MaskRoot
                | DelimiterK::MaskTop
        )
    }
}

/// Which frames a token closes, from the top of the stack down.
#[derive(Debug, Clone, Copy, PartialEq, Eq, Structural)]
pub enum EndRule {
    /// Indented frames that start to the right of the column.
    Offside(usize),
    /// Every indented frame.
    Indented,
    /// For `->` in the column: `do` frames always, `of` frames never, other
    /// indented frames that start in the column or to its right.
    Arrow(usize),
    /// For `in`: indented frames other than those of `ado` and of a `let`
    /// expression.
    In,
}

impl EndRule {
    /// Whether the rule closes the frame.
    pub open spec fn spec_closes(&self, position: Position, delimiter: DelimiterK) -> bool {
        match *self {
            EndRule::Offside(column) => delimiter.is_indented() && column < position.column,
            EndRule::Indented => delimiter.is_indented(),
            EndRule::Arrow(column) => match delimiter {
                DelimiterK::KwDo => true,
                DelimiterK::KwOf => false,
                _ => delimiter.is_indented() && column <= position.column,
            },
            EndRule::In => match delimiter {
                DelimiterK::KwAdo | DelimiterK::KwLetExpr => false,
                _ => delimiter.is_indented(),
            },
        }
    }

    /// Whether the rule closes the frame.
    #[verifier::when_used_as_spec(spec_closes)]
    pub fn closes(&self, position: Position, delimiter: DelimiterK) -> (r: bool)
        ensures
            r == self.spec_closes(position, delimiter),
    {
        match *self {
            EndRule::Offside(column) => delimiter.is_indented() && column < position.column,
            EndRule::Indented => delimiter.is_indented(),
            EndRule::Arrow(column) => match delimiter {
                DelimiterK::KwDo => true,
                DelimiterK::KwOf => false,
                _ => delimiter.is_indented() && column <= position.column,
            },
            EndRule::In => match delimiter {
                DelimiterK::KwAdo | DelimiterK::KwLetExpr => false,
                _ => delimiter.is_indented(),
            },
        }
    }
}

/// The engine and the tokens it has put out so far, as one value.
pub struct Layout {
    pub delimiters: Seq<(Position, DelimiterK)>,
    pub depth: usize,
    pub output: Seq<Token>,
}

/// One less, but never below zero.
pub open spec fn one_less(depth: usize) -> usize {
    if depth == 0 {
        0
    } else {
        (depth - 1) as usize
    }
}

/// The number of indented frames on the stack.
pub open spec fn indented_count(delimiters: Seq<(Position, DelimiterK)>) -> nat
    decreases delimiters.len(),
{
    if delimiters.len() == 0 {
        0
    } else {
        indented_count(delimiters.drop_last()) + if delimiters.last().1.is_indented() {
            1nat
        } else {
            0nat
        }
    }
}

/// The position of the topmost indented frame.
pub open spec fn recent_indented(delimiters: Seq<(Position, DelimiterK)>) -> Option<Position>
    decreases delimiters.len(),
{
    if delimiters.len() == 0 {
        None
    } else if delimiters.last().1.is_indented() {
        Some(delimiters.last().0)
    } else {
        recent_indented(delimiters.drop_last())
    }
}

/// Scanning the stack from the top while `rule` closes the frames: the
/// length of the stack that is left, and the number of indented frames
/// among those closed.
pub open spec fn determine_end(delimiters: Seq<(Position, DelimiterK)>, rule: EndRule) -> (
    nat,
    nat,
)
    decreases delimiters.len(),
{
    if delimiters.len() == 0 {
        (0, 0)
    } else if rule.closes(delimiters.last().0, delimiters.last().1) {
        let (take_n, make_n) = determine_end(delimiters.drop_last(), rule);
        (
            take_n,
            make_n + if delimiters.last().1.is_indented() {
                1nat
            } else {
                0nat
            },
        )
    } else {
        (delimiters.len(), 0)
    }
}

impl Layout {
    /// The state before the first token, which stands at `position`.
    pub open spec fn initial(position: Position) -> Layout {
        Layout { delimiters: seq![(position, DelimiterK::MaskRoot)], depth: 0, output: seq![] }
    }

    /// What opened the topmost frame.
    pub open spec fn top(self) -> Option<DelimiterK> {
        if self.delimiters.len() == 0 {
            None
        } else {
            Some(self.delimiters.last().1)
        }
    }

    /// Puts out `token` as it is.
    pub open spec fn emit(self, token: Token) -> Layout {
        Layout { output: self.output.push(token), ..self }
    }

    /// Puts out the token itself, at the current depth.
    pub open spec fn emit_current(self, token: Token) -> Layout {
        self.emit(token.with_depth(self.depth))
    }

    /// Opens a frame.
    pub open spec fn push(self, position: Position, delimiter: DelimiterK) -> Layout {
        Layout { delimiters: self.delimiters.push((position, delimiter)), ..self }
    }

    /// Drops the topmost frame, if there is one.
    pub open spec fn pop(self) -> Layout {
        if self.delimiters.len() == 0 {
            self
        } else {
            Layout { delimiters: self.delimiters.drop_last(), ..self }
        }
    }

    /// Drops the frames above the first `take_n`.
    pub open spec fn truncate(self, take_n: nat) -> Layout {
        if take_n < self.delimiters.len() {
            Layout { delimiters: self.delimiters.take(take_n as int), ..self }
        } else {
            self
        }
    }

    /// Ends a block before `token`: a separator and an end at the current
    /// depth, and one level up.
    pub open spec fn push_end(self, token: Token) -> Layout {
        Layout {
            delimiters: self.delimiters,
            depth: one_less(self.depth),
            output: self.output.push(Token::layout(LayoutK::Separator, token.begin, self.depth)).push(
                Token::layout(LayoutK::End, token.begin, self.depth),
            ),
        }
    }

    /// Ends `make_n` blocks before `token`.
    pub open spec fn push_ends(self, token: Token, make_n: nat) -> Layout
        decreases make_n,
    {
        if make_n == 0 {
            self
        } else {
            self.push_end(token).push_ends(token, (make_n - 1) as nat)
        }
    }

    /// Closes the frames that `determine_end` found.
    pub open spec fn commit(self, token: Token, ends: (nat, nat)) -> Layout {
        self.truncate(ends.0).push_ends(token, ends.1)
    }

    /// Opens a block after `token` for what stands at `next`, unless that
    /// is not to the right of the enclosing indented frame.
    pub open spec fn add_begin(self, token: Token, next: Position, delimiter: DelimiterK) -> Layout {
        match recent_indented(self.delimiters) {
            Some(past) if next.column <= past.column => self,
            _ => Layout {
                delimiters: self.delimiters.push((next, delimiter)),
                depth: (self.depth + 1) as usize,
                output: self.output.push(
                    Token::layout(LayoutK::Begin, token.end, (self.depth + 1) as usize),
                ),
            },
        }
    }

    /// Separates `token`, which stands at `now`, from what came before in
    /// its block: where the topmost frame is indented and `now` is in its
    /// column on a later line. An `of` block then starts a new pattern.
    pub open spec fn add_separator(self, token: Token, now: Position) -> Layout {
        if self.delimiters.len() == 0 {
            self
        } else {
            let (position, delimiter) = self.delimiters.last();
            if delimiter.is_indented() && now.column == position.column && now.line
                > position.line {
                let separated = self.emit(Token::layout(LayoutK::Separator, token.begin, self.depth));
                if delimiter == DelimiterK::KwOf {
                    separated.push(now, DelimiterK::MaskPat)
                } else {
                    separated
                }
            } else {
                self
            }
        }
    }

    /// Closes the indented frames that start to the right of `now`.
    pub open spec fn add_end(self, token: Token, now: Position) -> Layout {
        self.commit(token, determine_end(self.delimiters, EndRule::Offside(now.column)))
    }

    /// The rule for a token that neither opens nor closes by itself.
    pub open spec fn add_plain(self, token: Token, now: Position) -> Layout {
        self.add_end(token, now).add_separator(token, now).emit_current(token)
    }

    /// What opened the frame that would be on top after `ends`.
    pub open spec fn top_after(self, ends: (nat, nat)) -> Option<DelimiterK> {
        if 1 <= ends.0 <= self.delimiters.len() {
            Some(self.delimiters[ends.0 - 1].1)
        } else {
            None
        }
    }

    /// The rule for `of`: it closes the indented frames above the `case` that
    /// it belongs to and opens the block of the arms, whose first pattern stands
    /// at `next`. Without a `case`, the frames stay closed and `of` is a plain
    /// token.
    pub open spec fn add_of(self, token: Token, now: Position, next: Position) -> Layout {
        let ends = determine_end(self.delimiters, EndRule::Indented);
        if self.top_after(ends) == Some(DelimiterK::KwCase) {
            self.commit(token, ends).pop().emit_current(token).add_begin(
                token,
                next,
                DelimiterK::KwOf,
            ).push(next, DelimiterK::MaskPat)
        } else {
            self.commit(token, ends).add_plain(token, now)
        }
    }

    /// The rule for `->`: it closes the frames that [`EndRule::Arrow`] names,
    /// then the mark of an `if` guard, then the mark of a lambda or of a
    /// pattern.
    pub open spec fn add_arrow(self, token: Token, now: Position) -> Layout {
        let ends = determine_end(self.delimiters, EndRule::Arrow(now.column));
        let closed = self.commit(token, ends);
        let condition = if closed.top() == Some(DelimiterK::KwIf) {
            closed.pop()
        } else {
            closed
        };
        let mask = if condition.top() == Some(DelimiterK::MaskLam) || condition.top() == Some(
            DelimiterK::MaskPat,
        ) {
            condition.pop()
        } else {
            condition
        };
        mask.emit_current(token)
    }

    /// The rule for `then`: it closes the indented frames above the `if` that
    /// it belongs to, whose mark it replaces. Without an `if` it is a plain
    /// token.
    pub open spec fn add_then(self, token: Token, now: Position) -> Layout {
        let ends = determine_end(self.delimiters, EndRule::Indented);
        if self.top_after(ends) == Some(DelimiterK::KwIf) {
            self.commit(token, ends).pop().push(now, DelimiterK::KwThen).emit_current(token)
        } else {
            self.add_plain(token, now)
        }
    }

    /// The rule for `else`: it closes the indented frames above the `then`
    /// that it belongs to. Without a `then` it is a plain token.
    pub open spec fn add_else(self, token: Token, now: Position) -> Layout {
        let ends = determine_end(self.delimiters, EndRule::Indented);
        if self.top_after(ends) == Some(DelimiterK::KwThen) {
            self.commit(token, ends).pop().emit_current(token)
        } else {
            self.add_plain(token, now)
        }
    }

    /// The rule for `let`: a plain token that opens a block, of statements
    /// within `do` and `ado`, of an expression elsewhere.
    pub open spec fn add_let(self, token: Token, now: Position, next: Position) -> Layout {
        let plain = self.add_plain(token, now);
        let delimiter = if plain.top() == Some(DelimiterK::KwAdo) || plain.top() == Some(
            DelimiterK::KwDo,
        ) {
            DelimiterK::KwLetStmt
        } else {
            DelimiterK::KwLetExpr
        };
        plain.add_begin(token, next, delimiter)
    }

    /// The rule for `in`: it closes the indented frames above the `let` or
    /// `ado` that it belongs to, and ends that block. Without one it is a
    /// plain token.
    pub open spec fn add_in(self, token: Token, now: Position) -> Layout {
        let ends = determine_end(self.delimiters, EndRule::In);
        if self.top_after(ends) == Some(DelimiterK::KwAdo) || self.top_after(ends) == Some(
            DelimiterK::KwLetExpr,
        ) {
            self.commit(token, ends).pop().push_end(token).emit_current(token)
        } else {
            self.add_plain(token, now)
        }
    }

    /// The engine's step for `token`, which stands at `now` and is followed
    /// by a token at `next`.
    pub open spec fn add_layout(self, token: Token, now: Position, next: Position) -> Layout {
        match token.kind {
            TokenK::Operator(OperatorK::Bang)
            | TokenK::Operator(OperatorK::Pipe)
            | TokenK::Operator(OperatorK::Question) => self.emit_current(token).add_begin(
                token,
                next,
                DelimiterK::MaskTop,
            ),
            TokenK::Identifier(IdentifierK::Case) => self.add_end(token, now).add_separator(
                token,
                now,
            ).push(now, DelimiterK::KwCase).emit_current(token),
            TokenK::Identifier(IdentifierK::Of) => self.add_of(token, now, next),
            TokenK::Operator(OperatorK::Backslash) => self.add_end(token, now).add_separator(
                token,
                now,
            ).push(now, DelimiterK::MaskLam).emit_current(token),
            TokenK::Operator(OperatorK::ArrowRight) => self.add_arrow(token, now),
            TokenK::Identifier(IdentifierK::Ado) => self.add_plain(token, now).add_begin(
                token,
                next,
                DelimiterK::KwAdo,
            ),
            TokenK::Identifier(IdentifierK::Do) => self.add_plain(token, now).add_begin(
                token,
                next,
                DelimiterK::KwDo,
            ),
            TokenK::Identifier(IdentifierK::If) => self.add_end(token, now).add_separator(
                token,
                now,
            ).push(now, DelimiterK::KwIf).emit_current(token),
            TokenK::Identifier(IdentifierK::Then) => self.add_then(token, now),
            TokenK::Identifier(IdentifierK::Else) => self.add_else(token, now),
            TokenK::Identifier(IdentifierK::Let) => self.add_let(token, now, next),
            TokenK::Identifier(IdentifierK::In) => self.add_in(token, now),
            _ => self.add_plain(token, now),
        }
    }

    /// What is put out when the input ends at `eof_offset`, frame by frame
    /// from the top: for the root a separator, for any other indented frame
    /// a separator and an end, for a mark nothing.
    pub open spec fn finalize(self, eof_offset: usize) -> Layout
        decreases self.delimiters.len(),
    {
        if self.delimiters.len() == 0 {
            self
        } else {
            let delimiter = self.delimiters.last().1;
            let popped = self.pop();
            if delimiter == DelimiterK::MaskRoot {
                popped.emit(Token::layout(LayoutK::Separator, eof_offset, self.depth)).finalize(
                    eof_offset,
                )
            } else if delimiter.is_indented() {
                Layout {
                    delimiters: popped.delimiters,
                    depth: one_less(self.depth),
                    output: self.output.push(
                        Token::layout(LayoutK::Separator, eof_offset, self.depth),
                    ).push(Token::layout(LayoutK::End, eof_offset, self.depth)),
                }.finalize(eof_offset)
            } else {
                popped.finalize(eof_offset)
            }
        }
    }

    /// The depth never exceeds the number of indented frames.
    pub open spec fn wf(self) -> bool {
        self.depth <= indented_count(self.delimiters)
    }
}

/// One more frame is one more indented frame if it is indented; and there
/// are no more indented frames than frames.
pub proof fn lemma_indented_count_push(
    delimiters: Seq<(Position, DelimiterK)>,
    frame: (Position, DelimiterK),
)
    ensures
        indented_count(delimiters.push(frame)) == indented_count(delimiters) + if frame.1.is_indented() {
            1nat
        } else {
            0nat
        },
        indented_count(delimiters) <= delimiters.len(),
    decreases delimiters.len(),
{
    assert(delimiters.push(frame).drop_last() =~= delimiters);
    if delimiters.len() > 0 {
        lemma_indented_count_push(delimiters.drop_last(), delimiters.last());
        assert(delimiters.drop_last().push(delimiters.last()) =~= delimiters);
    }
}

/// What `determine_end` closes is counted: the frames left and the indented
/// frames closed make up the indented frames there were.
pub proof fn lemma_determine_end(delimiters: Seq<(Position, DelimiterK)>, rule: EndRule)
    ensures
        determine_end(delimiters, rule).0 <= delimiters.len(),
        indented_count(delimiters.take(determine_end(delimiters, rule).0 as int))
            + determine_end(delimiters, rule).1 == indented_count(delimiters),
    decreases delimiters.len(),
{
    if delimiters.len() == 0 {
        assert(delimiters.take(0) =~= delimiters);
    } else if rule.closes(delimiters.last().0, delimiters.last().1) {
        lemma_determine_end(delimiters.drop_last(), rule);
        let take_n = determine_end(delimiters.drop_last(), rule).0 as int;
        assert(delimiters.drop_last().take(take_n) =~= delimiters.take(take_n));
    } else {
        assert(delimiters.take(delimiters.len() as int) =~= delimiters);
    }
}

impl Layout {
    /// Ending blocks leaves the stack alone and takes the depth down, but not
    /// below zero.
    pub proof fn lemma_push_ends(self, token: Token, make_n: nat)
        ensures
            self.push_ends(token, make_n).delimiters == self.delimiters,
            self.push_ends(token, make_n).depth == if self.depth >= make_n {
                self.depth - make_n
            } else {
                0
            },
        decreases make_n,
    {
        if make_n > 0 {
            self.push_end(token).lemma_push_ends(token, (make_n - 1) as nat);
        }
    }

    /// Ending one block after the others is ending the others first.
    pub proof fn lemma_push_ends_last(self, token: Token, make_n: nat)
        ensures
            self.push_ends(token, make_n + 1) == self.push_ends(token, make_n).push_end(token),
        decreases make_n,
    {
        if make_n > 0 {
            self.push_end(token).lemma_push_ends_last(token, (make_n - 1) as nat);
        } else {
            assert(self.push_ends(token, 1) == self.push_end(token).push_ends(token, 0));
        }
    }

    /// Closing frames keeps the depth within the number of indented frames.
    pub proof fn lemma_commit_wf(self, token: Token, rule: EndRule)
        requires
            self.wf(),
        ensures
            self.commit(token, determine_end(self.delimiters, rule)).wf(),
            self.commit(token, determine_end(self.delimiters, rule)).delimiters
                == self.delimiters.take(determine_end(self.delimiters, rule).0 as int),
    {
        let ends = determine_end(self.delimiters, rule);
        lemma_determine_end(self.delimiters, rule);
        self.truncate(ends.0).lemma_push_ends(token, ends.1);
        assert(self.delimiters.take(self.delimiters.len() as int) =~= self.delimiters);
    }

    /// Opening a frame keeps the depth within the number of indented frames.
    pub proof fn lemma_push_wf(self, position: Position, delimiter: DelimiterK)
        requires
            self.wf(),
        ensures
            self.push(position, delimiter).wf(),
    {
        lemma_indented_count_push(self.delimiters, (position, delimiter));
    }

    /// Dropping a frame that is a mark keeps the count; dropping an indented
    /// one asks for one block to be ended.
    pub proof fn lemma_pop(self)
        requires
            self.delimiters.len() > 0,
        ensures
            indented_count(self.delimiters) == indented_count(self.pop().delimiters) + if self.top()
                == Some(DelimiterK::KwAdo) || self.top() == Some(DelimiterK::KwDo) || self.top()
                == Some(DelimiterK::KwLetExpr) || self.top() == Some(DelimiterK::KwLetStmt)
                || self.top() == Some(DelimiterK::KwOf) || self.top() == Some(
                DelimiterK::MaskRoot,
            ) || self.top() == Some(DelimiterK::MaskTop) {
                1nat
            } else {
                0nat
            },
    {
    }

    /// A separator keeps the depth within the number of indented frames.
    pub proof fn lemma_add_separator_wf(self, token: Token, now: Position)
        requires
            self.wf(),
        ensures
            self.add_separator(token, now).wf(),
    {
        if self.delimiters.len() > 0 {
            lemma_indented_count_push(self.delimiters, (now, DelimiterK::MaskPat));
        }
    }

    /// A plain token keeps the depth within the number of indented frames.
    pub proof fn lemma_add_plain_wf(self, token: Token, now: Position)
        requires
            self.wf(),
        ensures
            self.add_plain(token, now).wf(),
            self.add_end(token, now).wf(),
            self.add_end(token, now).add_separator(token, now).wf(),
    {
        self.lemma_commit_wf(token, EndRule::Offside(now.column));
        self.add_end(token, now).lemma_add_separator_wf(token, now);
    }
}

/// The layout engine.
pub struct LayoutEngine {
    delimiters: Vec<(Position, DelimiterK)>,
    depth: usize,
}

impl LayoutEngine {
    /// The stack of frames, the bottom first.
    pub closed spec fn stack(&self) -> Seq<(Position, DelimiterK)> {
        self.delimiters@
    }

    /// The number of blocks that are open.
    pub closed spec fn level(&self) -> usize {
        self.depth
    }

    /// The engine together with the tokens put out so far.
    pub open spec fn with(&self, output: Seq<Token>) -> Layout {
        Layout { delimiters: self.stack(), depth: self.level(), output }
    }

    /// The number of blocks that are open.
    pub fn depth(&self) -> (depth: usize)
        ensures
            depth == self.level(),
    {
        self.depth
    }

    /// An engine before the first token, which stands at
    /// `initial_position`.
    pub fn new(initial_position: Position) -> (engine: LayoutEngine)
        ensures
            engine.with(seq![]) == Layout::initial(initial_position),
    {
        let mut delimiters = Vec::new();
        delimiters.push((initial_position, DelimiterK::MaskRoot));
        let engine = LayoutEngine { delimiters, depth: 0 };
        assert(engine.stack() =~= seq![(initial_position, DelimiterK::MaskRoot)]);
        engine
    }

    fn top(&self) -> (top: Option<DelimiterK>)
        ensures
            top == self.with(seq![]).top(),
    {
        let n = self.delimiters.len();
        if n == 0 {
            None
        } else {
            Some(self.delimiters[n - 1].1)
        }
    }

    fn emit_current(&self, tokens: &mut Vec<Token>, current_token: Token)
        ensures
            self.with(final(tokens)@) == self.with(old(tokens)@).emit_current(current_token),
    {
        tokens.push(current_token.with_depth(self.depth));
    }

    fn push(&mut self, tokens: &Vec<Token>, position: Position, delimiter: DelimiterK)
        ensures
            final(self).with(tokens@) == old(self).with(tokens@).push(position, delimiter),
    {
        self.delimiters.push((position, delimiter));
    }

    fn pop(&mut self, tokens: &Vec<Token>)
        ensures
            final(self).with(tokens@) == old(self).with(tokens@).pop(),
    {
        let _ = self.delimiters.pop();
        proof {
            if old(self).stack().len() > 0 {
                assert(self.stack() =~= old(self).stack().drop_last());
            }
        }
    }

    fn push_end(&mut self, tokens: &mut Vec<Token>, current_token: Token)
        ensures
            final(self).with(final(tokens)@) == old(self).with(old(tokens)@).push_end(
                current_token,
            ),
    {
        let begin = current_token.begin;
        let depth = self.depth;
        tokens.push(Token::layout(LayoutK::Separator, begin, depth));
        tokens.push(Token::layout(LayoutK::End, begin, depth));
        self.depth = if self.depth == 0 {
            0
        } else {
            self.depth - 1
        };
    }

    /// Scans the stack from the top while `rule` closes the frames.
    pub fn determine_end(&self, rule: EndRule) -> (ends: (usize, usize))
        ensures
            (ends.0 as nat, ends.1 as nat) == determine_end(self.stack(), rule),
            ends.0 <= self.stack().len(),
    {
        let mut take_n = self.delimiters.len();
        let mut make_n: usize = 0;
        proof {
            assert(self.stack().take(take_n as int) =~= self.stack());
        }
        while take_n > 0
            invariant
                take_n + make_n <= self.delimiters.len(),
                self.stack() == self.delimiters@,
                determine_end(self.stack(), rule).0 == determine_end(
                    self.stack().take(take_n as int),
                    rule,
                ).0,
                determine_end(self.stack(), rule).1 == determine_end(
                    self.stack().take(take_n as int),
                    rule,
                ).1 + make_n,
            ensures
                (take_n as nat, make_n as nat) == determine_end(self.stack(), rule),
                take_n <= self.stack().len(),
            decreases take_n,
        {
            let (position, delimiter) = self.delimiters[take_n - 1];
            proof {
                assert(self.stack().take(take_n as int).drop_last() =~= self.stack().take(
                    take_n - 1,
                ));
            }
            if rule.closes(position, delimiter) {
                take_n -= 1;
                if delimiter.is_indented() {
                    make_n += 1;
                }
            } else {
                break ;
            }
        }
        (take_n, make_n)
    }

    /// Closes the frames that `determine_end` found.
    fn commit(&mut self, tokens: &mut Vec<Token>, current_token: Token, ends: (usize, usize))
        ensures
            final(self).with(final(tokens)@) == old(self).with(old(tokens)@).commit(
                current_token,
                (ends.0 as nat, ends.1 as nat),
            ),
    {
        self.delimiters.truncate(ends.0);
        let ghost truncated = self.with(tokens@);
        proof {
            if ends.0 < old(self).stack().len() {
                assert(self.stack() =~= old(self).stack().take(ends.0 as int));
            } else {
                assert(self.stack() =~= old(self).stack());
            }
            assert(truncated == old(self).with(old(tokens)@).truncate(ends.0 as nat));
        }
        let mut made: usize = 0;
        while made < ends.1
            invariant
                made <= ends.1,
                self.with(tokens@) == truncated.push_ends(current_token, made as nat),
            decreases ends.1 - made,
        {
            proof {
                truncated.lemma_push_ends_last(current_token, made as nat);
            }
            self.push_end(tokens, current_token);
            made += 1;
        }
    }

    fn add_begin(
        &mut self,
        tokens: &mut Vec<Token>,
        current_token: Token,
        next_position: Position,
        delimiter: DelimiterK,
    )
        requires
            old(self).with(old(tokens)@).wf(),
            delimiter.is_indented(),
        ensures
            final(self).with(final(tokens)@) == old(self).with(old(tokens)@).add_begin(
                current_token,
                next_position,
                delimiter,
            ),
            final(self).with(final(tokens)@).wf(),
    {
        let mut index = self.delimiters.len();
        let mut recent: Option<Position> = None;
        proof {
            assert(self.stack().take(index as int) =~= self.stack());
        }
        while index > 0
            invariant_except_break
                recent.is_none(),
                recent_indented(self.stack()) == recent_indented(self.stack().take(index as int)),
            invariant
                index <= self.delimiters.len(),
                self.stack() == self.delimiters@,
            ensures
                recent == recent_indented(self.stack()),
            decreases index,
        {
            let (position, past) = self.delimiters[index - 1];
            proof {
                assert(self.stack().take(index as int).drop_last() =~= self.stack().take(
                    index - 1,
                ));
            }
            if past.is_indented() {
                recent = Some(position);
                break ;
            }
            index -= 1;
        }
        if let Some(past) = recent {
            if next_position.column <= past.column {
                return ;
            }
        }
        self.delimiters.push((next_position, delimiter));
        let frames = self.delimiters.len();
        proof {
            lemma_indented_count_push(old(self).stack(), (next_position, delimiter));
            lemma_indented_count_push(self.stack(), (next_position, delimiter));
            assert(self.depth < frames);
        }
        self.depth += 1;
        tokens.push(Token::layout(LayoutK::Begin, current_token.end, self.depth));
    }

    fn add_separator(
        &mut self,
        tokens: &mut Vec<Token>,
        current_token: Token,
        now_position: Position,
    )
        ensures
            final(self).with(final(tokens)@) == old(self).with(old(tokens)@).add_separator(
                current_token,
                now_position,
            ),
    {
        let n = self.delimiters.len();
        if n > 0 {
            let (position, delimiter) = self.delimiters[n - 1];
            if delimiter.is_indented() && now_position.column == position.column
                && now_position.line > position.line {
                tokens.push(Token::layout(LayoutK::Separator, current_token.begin, self.depth));
                if let DelimiterK::KwOf = delimiter {
                    self.delimiters.push((now_position, DelimiterK::MaskPat));
                }
            }
        }
    }

    fn add_end(&mut self, tokens: &mut Vec<Token>, current_token: Token, now_position: Position)
        ensures
            final(self).with(final(tokens)@) == old(self).with(old(tokens)@).add_end(
                current_token,
                now_position,
            ),
    {
        let ends = self.determine_end(EndRule::Offside(now_position.column));
        self.commit(tokens, current_token, ends);
    }

    fn add_plain(&mut self, tokens: &mut Vec<Token>, current_token: Token, now_position: Position)
        requires
            old(self).with(old(tokens)@).wf(),
        ensures
            final(self).with(final(tokens)@) == old(self).with(old(tokens)@).add_plain(
                current_token,
                now_position,
            ),
            final(self).with(final(tokens)@).wf(),
    {
        proof {
            old(self).with(old(tokens)@).lemma_add_plain_wf(current_token, now_position);
        }
        self.add_end(tokens, current_token, now_position);
        self.add_separator(tokens, current_token, now_position);
        self.emit_current(tokens, current_token);
    }

    fn top_after(&self, ends: (usize, usize)) -> (top: Option<DelimiterK>)
        requires
            ends.0 <= self.stack().len(),
        ensures
            top == self.with(seq![]).top_after((ends.0 as nat, ends.1 as nat)),
    {
        if ends.0 >= 1 {
            Some(self.delimiters[ends.0 - 1].1)
        } else {
            None
        }
    }

    fn add_of(
        &mut self,
        tokens: &mut Vec<Token>,
        current_token: Token,
        now_position: Position,
        next_position: Position,
    )
        requires
            old(self).with(old(tokens)@).wf(),
        ensures
            final(self).with(final(tokens)@) == old(self).with(old(tokens)@).add_of(
                current_token,
                now_position,
                next_position,
            ),
            final(self).with(final(tokens)@).wf(),
    {
        let ends = self.determine_end(EndRule::Indented);
        let top = self.top_after(ends);
        proof {
            old(self).with(old(tokens)@).lemma_commit_wf(current_token, EndRule::Indented);
        }
        self.commit(tokens, current_token, ends);
        if let Some(DelimiterK::KwCase) = top {
            proof {
                self.with(tokens@).lemma_pop();
            }
            self.pop(tokens);
            self.emit_current(tokens, current_token);
            self.add_begin(tokens, current_token, next_position, DelimiterK::KwOf);
            proof {
                self.with(tokens@).lemma_push_wf(next_position, DelimiterK::MaskPat);
            }
            self.push(tokens, next_position, DelimiterK::MaskPat);
        } else {
            self.add_plain(tokens, current_token, now_position);
        }
    }

    fn add_arrow(&mut self, tokens: &mut Vec<Token>, current_token: Token, now_position: Position)
        requires
            old(self).with(old(tokens)@).wf(),
        ensures
            final(self).with(final(tokens)@) == old(self).with(old(tokens)@).add_arrow(
                current_token,
                now_position,
            ),
            final(self).with(final(tokens)@).wf(),
    {
        let ends = self.determine_end(EndRule::Arrow(now_position.column));
        proof {
            old(self).with(old(tokens)@).lemma_commit_wf(
                current_token,
                EndRule::Arrow(now_position.column),
            );
        }
        self.commit(tokens, current_token, ends);
        if let Some(DelimiterK::KwIf) = self.top() {
            proof {
                self.with(tokens@).lemma_pop();
            }
            self.pop(tokens);
        }
        if let Some(DelimiterK::MaskLam | DelimiterK::MaskPat) = self.top() {
            proof {
                self.with(tokens@).lemma_pop();
            }
            self.pop(tokens);
        }
        self.emit_current(tokens, current_token);
    }

    fn add_then(&mut self, tokens: &mut Vec<Token>, current_token: Token, now_position: Position)
        requires
            old(self).with(old(tokens)@).wf(),
        ensures
            final(self).with(final(tokens)@) == old(self).with(old(tokens)@).add_then(
                current_token,
                now_position,
            ),
            final(self).with(final(tokens)@).wf(),
    {
        let ends = self.determine_end(EndRule::Indented);
        if let Some(DelimiterK::KwIf) = self.top_after(ends) {
            proof {
                old(self).with(old(tokens)@).lemma_commit_wf(current_token, EndRule::Indented);
            }
            self.commit(tokens, current_token, ends);
            proof {
                self.with(tokens@).lemma_pop();
            }
            self.pop(tokens);
            proof {
                self.with(tokens@).lemma_push_wf(now_position, DelimiterK::KwThen);
            }
            self.push(tokens, now_position, DelimiterK::KwThen);
            self.emit_current(tokens, current_token);
        } else {
            self.add_plain(tokens, current_token, now_position);
        }
    }

    fn add_else(&mut self, tokens: &mut Vec<Token>, current_token: Token, now_position: Position)
        requires
            old(self).with(old(tokens)@).wf(),
        ensures
            final(self).with(final(tokens)@) == old(self).with(old(tokens)@).add_else(
                current_token,
                now_position,
            ),
            final(self).with(final(tokens)@).wf(),
    {
        let ends = self.determine_end(EndRule::Indented);
        if let Some(DelimiterK::KwThen) = self.top_after(ends) {
            proof {
                old(self).with(old(tokens)@).lemma_commit_wf(current_token, EndRule::Indented);
            }
            self.commit(tokens, current_token, ends);
            proof {
                self.with(tokens@).lemma_pop();
            }
            self.pop(tokens);
            self.emit_current(tokens, current_token);
        } else {
            self.add_plain(tokens, current_token, now_position);
        }
    }

    fn add_let(
        &mut self,
        tokens: &mut Vec<Token>,
        current_token: Token,
        now_position: Position,
        next_position: Position,
    )
        requires
            old(self).with(old(tokens)@).wf(),
        ensures
            final(self).with(final(tokens)@) == old(self).with(old(tokens)@).add_let(
                current_token,
                now_position,
                next_position,
            ),
            final(self).with(final(tokens)@).wf(),
    {
        self.add_plain(tokens, current_token, now_position);
        let delimiter = match self.top() {
            Some(DelimiterK::KwAdo | DelimiterK::KwDo) => DelimiterK::KwLetStmt,
            _ => DelimiterK::KwLetExpr,
        };
        self.add_begin(tokens, current_token, next_position, delimiter);
    }

    fn add_in(&mut self, tokens: &mut Vec<Token>, current_token: Token, now_position: Position)
        requires
            old(self).with(old(tokens)@).wf(),
        ensures
            final(self).with(final(tokens)@) == old(self).with(old(tokens)@).add_in(
                current_token,
                now_position,
            ),
            final(self).with(final(tokens)@).wf(),
    {
        let ends = self.determine_end(EndRule::In);
        if let Some(DelimiterK::KwAdo | DelimiterK::KwLetExpr) = self.top_after(ends) {
            proof {
                old(self).with(old(tokens)@).lemma_commit_wf(current_token, EndRule::In);
            }
            self.commit(tokens, current_token, ends);
            proof {
                self.with(tokens@).lemma_pop();
            }
            self.pop(tokens);
            self.push_end(tokens, current_token);
            self.emit_current(tokens, current_token);
        } else {
            self.add_plain(tokens, current_token, now_position);
        }
    }

    /// Takes the engine one token on: puts out `current_token`, which stands
    /// at `now_position`, and the layout tokens around it. `next_position`
    /// is where the token after it stands.
    pub fn add_layout(
        &mut self,
        tokens: &mut Vec<Token>,
        current_token: Token,
        now_position: Position,
        next_position: Position,
    )
        requires
            old(self).with(old(tokens)@).wf(),
        ensures
            final(self).with(final(tokens)@) == old(self).with(old(tokens)@).add_layout(
                current_token,
                now_position,
                next_position,
            ),
            final(self).with(final(tokens)@).wf(),
    {
        proof {
            old(self).with(old(tokens)@).lemma_add_plain_wf(current_token, now_position);
        }
        match current_token.kind {
            TokenK::Operator(OperatorK::Bang | OperatorK::Pipe | OperatorK::Question) => {
                self.emit_current(tokens, current_token);
                self.add_begin(tokens, current_token, next_position, DelimiterK::MaskTop);
            },
            TokenK::Identifier(IdentifierK::Case) => {
                self.add_end(tokens, current_token, now_position);
                self.add_separator(tokens, current_token, now_position);
                proof {
                    self.with(tokens@).lemma_push_wf(now_position, DelimiterK::KwCase);
                }
                self.push(tokens, now_position, DelimiterK::KwCase);
                self.emit_current(tokens, current_token);
            },
            TokenK::Identifier(IdentifierK::Of) => {
                self.add_of(tokens, current_token, now_position, next_position);
            },
            TokenK::Operator(OperatorK::Backslash) => {
                self.add_end(tokens, current_token, now_position);
                self.add_separator(tokens, current_token, now_position);
                proof {
                    self.with(tokens@).lemma_push_wf(now_position, DelimiterK::MaskLam);
                }
                self.push(tokens, now_position, DelimiterK::MaskLam);
                self.emit_current(tokens, current_token);
            },
            TokenK::Operator(OperatorK::ArrowRight) => {
                self.add_arrow(tokens, current_token, now_position);
            },
            TokenK::Identifier(IdentifierK::Ado) => {
                self.add_plain(tokens, current_token, now_position);
                self.add_begin(tokens, current_token, next_position, DelimiterK::KwAdo);
            },
            TokenK::Identifier(IdentifierK::Do) => {
                self.add_plain(tokens, current_token, now_position);
                self.add_begin(tokens, current_token, next_position, DelimiterK::KwDo);
            },
            TokenK::Identifier(IdentifierK::If) => {
                self.add_end(tokens, current_token, now_position);
                self.add_separator(tokens, current_token, now_position);
                proof {
                    self.with(tokens@).lemma_push_wf(now_position, DelimiterK::KwIf);
                }
                self.push(tokens, now_position, DelimiterK::KwIf);
                self.emit_current(tokens, current_token);
            },
            TokenK::Identifier(IdentifierK::Then) => {
                self.add_then(tokens, current_token, now_position);
            },
            TokenK::Identifier(IdentifierK::Else) => {
                self.add_else(tokens, current_token, now_position);
            },
            TokenK::Identifier(IdentifierK::Let) => {
                self.add_let(tokens, current_token, now_position, next_position);
            },
            TokenK::Identifier(IdentifierK::In) => {
                self.add_in(tokens, current_token, now_position);
            },
            _ => {
                self.add_plain(tokens, current_token, now_position);
            },
        }
    }

    /// Closes every frame at the end of the input, which is at `eof_offset`.
    pub fn finalize_layout(&mut self, tokens: &mut Vec<Token>, eof_offset: usize)
        ensures
            final(self).with(final(tokens)@) == old(self).with(old(tokens)@).finalize(eof_offset),
            final(self).stack().len() == 0,
    {
        while self.delimiters.len() > 0
            invariant
                old(self).with(old(tokens)@).finalize(eof_offset) == self.with(tokens@).finalize(
                    eof_offset,
                ),
            decreases self.delimiters.len(),
        {
            let ghost before = self.with(tokens@);
            let delimiter = self.delimiters[self.delimiters.len() - 1].1;
            self.pop(tokens);
            if let DelimiterK::MaskRoot = delimiter {
                tokens.push(Token::layout(LayoutK::Separator, eof_offset, self.depth));
            } else if delimiter.is_indented() {
                tokens.push(Token::layout(LayoutK::Separator, eof_offset, self.depth));
                tokens.push(Token::layout(LayoutK::End, eof_offset, self.depth));
                self.depth = if self.depth == 0 {
                    0
                } else {
                    self.depth - 1
                };
            }
        }
    }
}

} // verus!
